//! Shared leaderboard machinery.
//!
//! Every game ranks its players the same way: each player gets a
//! comparison key (a score, higher is better, and a tie-break value,
//! lower is better), the keys are sorted, and rank numbers are assigned
//! densely — players with equal keys share a rank, and the rank grows by
//! one whenever the key changes.  Roster order breaks remaining ties, so
//! the result is a function of the keys alone.

use vstd::prelude::*;

use crate::data::{Rank, RankView};
use crate::logic::{GamePlayer, GamePlayerView};

verus! {

/// One player's comparison key: `score` (higher is better), `reached`
/// (lower is better) and the player's roster position `idx`.
#[derive(Clone, Copy, Debug, PartialEq, Eq, Structural)]
pub struct ScoreEntry {
    pub score: u64,
    pub reached: u64,
    pub idx: usize,
}

/// Whether two entries carry the same comparison key.
pub open spec fn same_key(a: ScoreEntry, b: ScoreEntry) -> bool {
    a.score == b.score && a.reached == b.reached
}

/// Whether `a`'s key strictly outranks `b`'s.
pub open spec fn better_key(a: ScoreEntry, b: ScoreEntry) -> bool {
    a.score > b.score || (a.score == b.score && a.reached < b.reached)
}

/// The strict total order the leaderboard is sorted by: by key, and by
/// roster position among equal keys.
pub open spec fn precedes(a: ScoreEntry, b: ScoreEntry) -> bool {
    better_key(a, b) || (same_key(a, b) && a.idx < b.idx)
}

/// Whether `s` is sorted by [`precedes`]: no later entry precedes an
/// earlier one.
pub open spec fn sorted_entries(s: Seq<ScoreEntry>) -> bool {
    forall|i: int, j: int| 0 <= i < j < s.len() ==> !(#[trigger] precedes(s[j], s[i]))
}

fn entry_precedes(a: &ScoreEntry, b: &ScoreEntry) -> (r: bool)
    ensures
        r == precedes(*a, *b),
{
    a.score > b.score || (a.score == b.score && a.reached < b.reached) || (a.score == b.score
        && a.reached == b.reached && a.idx < b.idx)
}

/// `e` placed into `s` just before the first element it precedes.
pub open spec fn insert_entry(e: ScoreEntry, s: Seq<ScoreEntry>) -> Seq<ScoreEntry>
    decreases s.len(),
{
    if s.len() == 0 {
        seq![e]
    } else if precedes(e, s[0]) {
        seq![e] + s
    } else {
        seq![s[0]] + insert_entry(e, s.drop_first())
    }
}

/// `s` sorted by [`precedes`], stably from the left.
pub open spec fn sort_entries(s: Seq<ScoreEntry>) -> Seq<ScoreEntry>
    decreases s.len(),
{
    if s.len() == 0 {
        Seq::empty()
    } else {
        insert_entry(s.last(), sort_entries(s.drop_last()))
    }
}

proof fn lemma_insert_entry_at(e: ScoreEntry, s: Seq<ScoreEntry>, p: int)
    requires
        0 <= p <= s.len(),
        forall|t: int| 0 <= t < p ==> !precedes(e, #[trigger] s[t]),
        p < s.len() ==> precedes(e, s[p]),
    ensures
        insert_entry(e, s) == s.insert(p, e),
    decreases p,
{
    if s.len() == 0 {
        assert(insert_entry(e, s) =~= s.insert(0, e));
    } else if p == 0 {
        assert(insert_entry(e, s) =~= s.insert(0, e));
    } else {
        assert(!precedes(e, s[0]));
        lemma_insert_entry_at(e, s.drop_first(), p - 1);
        assert(seq![s[0]] + s.drop_first().insert(p - 1, e) =~= s.insert(p, e));
    }
}

proof fn lemma_insert_entry_len(e: ScoreEntry, s: Seq<ScoreEntry>)
    ensures
        insert_entry(e, s).len() == s.len() + 1,
    decreases s.len(),
{
    if s.len() > 0 && !precedes(e, s[0]) {
        lemma_insert_entry_len(e, s.drop_first());
    }
}

/// Sorting keeps the length of the entry list.
pub proof fn lemma_sort_entries_len(s: Seq<ScoreEntry>)
    ensures
        sort_entries(s).len() == s.len(),
    decreases s.len(),
{
    if s.len() > 0 {
        lemma_sort_entries_len(s.drop_last());
        lemma_insert_entry_len(s.last(), sort_entries(s.drop_last()));
    }
}

proof fn lemma_insert_entry_membership(e: ScoreEntry, s: Seq<ScoreEntry>, k: int)
    requires
        0 <= k < insert_entry(e, s).len(),
    ensures
        insert_entry(e, s)[k] == e || s.contains(insert_entry(e, s)[k]),
    decreases s.len(),
{
    lemma_insert_entry_len(e, s);
    if s.len() == 0 {
    } else if precedes(e, s[0]) {
        if k > 0 {
            assert(insert_entry(e, s)[k] == s[k - 1]);
        }
    } else {
        if k == 0 {
            assert(insert_entry(e, s)[0] == s[0]);
        } else {
            lemma_insert_entry_membership(e, s.drop_first(), k - 1);
            let x = insert_entry(e, s)[k];
            assert(x == insert_entry(e, s.drop_first())[k - 1]);
            if x != e {
                let t = choose|t: int| 0 <= t < s.drop_first().len() && s.drop_first()[t] == x;
                assert(s[t + 1] == x);
            }
        }
    }
}

/// Every entry of the sorted list occurs in the input.
pub proof fn lemma_sort_entries_membership(s: Seq<ScoreEntry>, k: int)
    requires
        0 <= k < sort_entries(s).len(),
    ensures
        s.contains(sort_entries(s)[k]),
    decreases s.len(),
{
    lemma_sort_entries_len(s);
    if s.len() > 0 {
        let rest = sort_entries(s.drop_last());
        lemma_insert_entry_membership(s.last(), rest, k);
        let x = sort_entries(s)[k];
        if x == s.last() {
            assert(s[s.len() - 1] == x);
        } else {
            lemma_sort_entries_len(s.drop_last());
            let t = choose|t: int| 0 <= t < rest.len() && rest[t] == x;
            lemma_sort_entries_membership(s.drop_last(), t);
            let u = choose|u: int| 0 <= u < s.drop_last().len() && s.drop_last()[u] == x;
            assert(s[u] == x);
        }
    }
}

proof fn lemma_insert_entry_sorted(e: ScoreEntry, s: Seq<ScoreEntry>)
    requires
        sorted_entries(s),
    ensures
        sorted_entries(insert_entry(e, s)),
    decreases s.len(),
{
    lemma_insert_entry_len(e, s);
    if s.len() == 0 {
    } else if precedes(e, s[0]) {
        let r = seq![e] + s;
        assert forall|i: int, j: int| 0 <= i < j < r.len() implies !(#[trigger] precedes(
            r[j],
            r[i],
        )) by {
            assert(r[j] == s[j - 1]);
            if i > 0 {
                assert(r[i] == s[i - 1]);
                if i < j - 1 + 1 {
                    assert(!precedes(s[j - 1], s[i - 1]));
                }
            } else {
                assert(r[0] == e);
                if j > 1 {
                    assert(!precedes(s[j - 1], s[0]));
                }
            }
        }
    } else {
        assert forall|i: int, j: int| 0 <= i < j < s.drop_first().len() implies !(
        #[trigger] precedes(s.drop_first()[j], s.drop_first()[i])) by {
            assert(s.drop_first()[i] == s[i + 1]);
            assert(s.drop_first()[j] == s[j + 1]);
        }
        assert(sorted_entries(s.drop_first()));
        lemma_insert_entry_sorted(e, s.drop_first());
        let inner = insert_entry(e, s.drop_first());
        let r = seq![s[0]] + inner;
        lemma_insert_entry_len(e, s.drop_first());
        assert forall|i: int, j: int| 0 <= i < j < r.len() implies !(#[trigger] precedes(
            r[j],
            r[i],
        )) by {
            assert(r[j] == inner[j - 1]);
            if i > 0 {
                assert(r[i] == inner[i - 1]);
            } else {
                assert(r[0] == s[0]);
                lemma_insert_entry_membership(e, s.drop_first(), j - 1);
                if inner[j - 1] == e {
                } else {
                    let t = choose|t: int|
                        0 <= t < s.drop_first().len() && s.drop_first()[t] == inner[j - 1];
                    assert(s[t + 1] == inner[j - 1]);
                    assert(!precedes(s[t + 1], s[0]));
                }
            }
        }
    }
}

/// The sorted entry list is sorted by [`precedes`].
pub proof fn lemma_sort_entries_sorted(s: Seq<ScoreEntry>)
    ensures
        sorted_entries(sort_entries(s)),
    decreases s.len(),
{
    if s.len() > 0 {
        lemma_sort_entries_sorted(s.drop_last());
        lemma_insert_entry_sorted(s.last(), sort_entries(s.drop_last()));
    }
}

/// Sorts the entries by [`precedes`], stably from the left.
pub fn sort_score_entries(v: &Vec<ScoreEntry>) -> (r: Vec<ScoreEntry>)
    ensures
        r@ == sort_entries(v@),
{
    let mut r: Vec<ScoreEntry> = Vec::new();
    let mut k: usize = 0;
    while k < v.len()
        invariant
            0 <= k <= v@.len(),
            r@ == sort_entries(v@.subrange(0, k as int)),
            r@.len() == k,
        decreases v@.len() - k,
    {
        proof {
            lemma_sort_entries_len(v@.subrange(0, k as int));
        }
        let e = v[k];
        let mut p: usize = 0;
        while p < r.len() && !entry_precedes(&e, &r[p])
            invariant
                0 <= p <= r@.len(),
                forall|t: int| 0 <= t < p ==> !precedes(e, #[trigger] r@[t]),
            decreases r@.len() - p,
        {
            p += 1;
        }
        proof {
            lemma_insert_entry_at(e, r@, p as int);
            assert(v@.subrange(0, (k + 1) as int).drop_last() =~= v@.subrange(0, k as int));
            assert(v@.subrange(0, (k + 1) as int).last() == v@[k as int]);
        }
        r.insert(p, e);
        k += 1;
    }
    proof {
        assert(v@.subrange(0, v@.len() as int) =~= v@);
    }
    r
}

/// A rank one step worse than `r`, capped at the type's maximum.
pub open spec fn bump(r: u32) -> u32 {
    if r < u32::MAX {
        (r + 1) as u32
    } else {
        r
    }
}

/// The dense rank numbers of a sorted entry list: the first entry ranks
/// one, and the rank grows exactly where the key changes.
pub open spec fn ranks_of(s: Seq<ScoreEntry>) -> Seq<u32>
    decreases s.len(),
{
    if s.len() == 0 {
        Seq::empty()
    } else if s.len() == 1 {
        seq![1u32]
    } else {
        let prev = ranks_of(s.drop_last());
        prev.push(
            if same_key(s[s.len() - 2], s[s.len() - 1]) {
                prev[prev.len() - 1]
            } else {
                bump(prev[prev.len() - 1])
            },
        )
    }
}

/// Rank numbering matches the entry list in length.
pub proof fn lemma_ranks_of_len(s: Seq<ScoreEntry>)
    ensures
        ranks_of(s).len() == s.len(),
    decreases s.len(),
{
    if s.len() > 1 {
        lemma_ranks_of_len(s.drop_last());
    }
}

proof fn lemma_ranks_of_prefix(s: Seq<ScoreEntry>, k: int)
    requires
        s.len() >= 1,
        0 <= k < s.len() - 1,
    ensures
        ranks_of(s)[k] == ranks_of(s.drop_last())[k],
{
    lemma_ranks_of_len(s.drop_last());
}

proof fn lemma_ranks_adjacent(s: Seq<ScoreEntry>, k: int)
    requires
        0 <= k < s.len() - 1,
        same_key(s[k], s[k + 1]),
    ensures
        ranks_of(s)[k + 1] == ranks_of(s)[k],
    decreases s.len(),
{
    lemma_ranks_of_len(s);
    lemma_ranks_of_len(s.drop_last());
    if k + 1 == s.len() - 1 {
        let prev = ranks_of(s.drop_last());
        assert(ranks_of(s)[k + 1] == prev[prev.len() - 1]);
        lemma_ranks_of_prefix(s, k);
    } else {
        assert(s.drop_last()[k] == s[k]);
        assert(s.drop_last()[k + 1] == s[k + 1]);
        lemma_ranks_adjacent(s.drop_last(), k);
        lemma_ranks_of_prefix(s, k);
        lemma_ranks_of_prefix(s, k + 1);
    }
}

proof fn lemma_key_chain(s: Seq<ScoreEntry>, a: int, b: int)
    requires
        sorted_entries(s),
        0 <= a <= b < s.len(),
    ensures
        better_key(s[a], s[b]) || same_key(s[a], s[b]),
{
    if a < b {
        assert(!precedes(s[b], s[a]));
    }
}

/// Entries of the sorted list that share a key share a rank: the law that
/// tied players carry identical rank numbers.
pub proof fn lemma_ties_share_rank(s: Seq<ScoreEntry>, i: int, j: int)
    requires
        sorted_entries(s),
        0 <= i <= j < s.len(),
        same_key(s[i], s[j]),
    ensures
        ranks_of(s)[i] == ranks_of(s)[j],
    decreases j - i,
{
    if i < j {
        assert(!precedes(s[i + 1], s[i]));
        lemma_key_chain(s, i + 1, j);
        assert(same_key(s[i], s[i + 1]));
        lemma_ranks_adjacent(s, i);
        lemma_ties_share_rank(s, i + 1, j);
    }
}

/// Computes the dense rank numbers of a sorted entry list.
fn ranks_of_sorted(s: &Vec<ScoreEntry>) -> (r: Vec<u32>)
    ensures
        r@ == ranks_of(s@),
{
    let mut r: Vec<u32> = Vec::new();
    let mut k: usize = 0;
    while k < s.len()
        invariant
            0 <= k <= s@.len(),
            r@ == ranks_of(s@.subrange(0, k as int)),
            r@.len() == k,
        decreases s@.len() - k,
    {
        let next: u32 = if k == 0 {
            1
        } else {
            let prev = r[k - 1];
            if s[k - 1].score == s[k].score && s[k - 1].reached == s[k].reached {
                prev
            } else if prev < u32::MAX {
                prev + 1
            } else {
                prev
            }
        };
        let ghost pre = r@;
        r.push(next);
        proof {
            let sub = s@.subrange(0, k as int);
            let sub1 = s@.subrange(0, (k + 1) as int);
            assert(sub1.drop_last() =~= sub);
            assert(sub1.last() == s@[k as int]);
            assert(r@ == pre.push(next));
            if k == 0 {
                assert(ranks_of(sub1) =~= seq![1u32]);
                assert(r@ =~= ranks_of(sub1));
            } else {
                assert(sub1[sub1.len() - 2] == s@[k as int - 1]);
                assert(ranks_of(sub1) == pre.push(next));
            }
        }
        k += 1;
    }
    proof {
        assert(s@.subrange(0, s@.len() as int) =~= s@);
    }
    r
}

/// The leaderboard derived from per-player comparison keys: entries are
/// sorted by key, ranks are assigned densely, and each row names the
/// player the entry's `idx` points at.
pub open spec fn rank_results(entries: Seq<ScoreEntry>, players: Seq<GamePlayerView>) -> Seq<
    RankView,
> {
    let sorted = sort_entries(entries);
    let rk = ranks_of(sorted);
    Seq::new(sorted.len(), |k: int| RankView { rank: rk[k], player: players[sorted[k].idx as int].player })
}

/// Sorts the given comparison keys and assigns dense ranks.
pub fn ranks_from_entries(entries: &Vec<ScoreEntry>, players: &Vec<GamePlayer>) -> (r: Vec<Rank>)
    requires
        forall|k: int| 0 <= k < entries@.len() ==> (#[trigger] entries@[k].idx) < players@.len(),
    ensures
        r.deep_view() == rank_results(entries@, players.deep_view()),
{
    let sorted = sort_score_entries(entries);
    proof {
        lemma_sort_entries_len(entries@);
        assert forall|k: int| 0 <= k < sorted@.len() implies (#[trigger] sorted@[k].idx)
            < players@.len() by {
            lemma_sort_entries_membership(entries@, k);
            let t = choose|t: int| 0 <= t < entries@.len() && entries@[t] == sorted@[k];
        }
    }
    let rk = ranks_of_sorted(&sorted);
    proof {
        lemma_ranks_of_len(sorted@);
    }
    let mut out: Vec<Rank> = Vec::new();
    let mut k: usize = 0;
    while k < sorted.len()
        invariant
            0 <= k <= sorted@.len(),
            sorted@ == sort_entries(entries@),
            rk@ == ranks_of(sorted@),
            rk@.len() == sorted@.len(),
            forall|t: int| 0 <= t < sorted@.len() ==> (#[trigger] sorted@[t].idx)
                < players@.len(),
            out@.len() == k,
            forall|t: int| 0 <= t < k ==> #[trigger] out.deep_view()[t]
                == rank_results(entries@, players.deep_view())[t],
        decreases sorted@.len() - k,
    {
        let idx = sorted[k].idx;
        let c = Rank { rank: rk[k], player: players[idx].player.clone() };
        let ghost pre = out.deep_view();
        out.push(c);
        proof {
            assert(out.deep_view() =~= pre.push(c@));
            assert(players.deep_view()[idx as int] == players@[idx as int]@);
        }
        k += 1;
    }
    proof {
        assert(out.deep_view() =~= rank_results(entries@, players.deep_view()));
    }
    out
}

} // verus!
