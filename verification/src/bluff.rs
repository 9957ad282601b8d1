//! The Bluff engine: a card-passing bluffing game.
//!
//! Every player starts with an equal share of a 52-card deck.  The
//! round-opener deals some cards face down and claims what they are; the
//! following players either pass, add cards under the same claim, or flip
//! the last deal.  A wrong claim sends the pile to the dealer, a right one
//! to the challenger.  A player with no cards left is done; the game ends
//! when at most one player still holds cards or at most one is connected.

use vstd::prelude::*;

use crate::data::{Rank, RankView};
use crate::games::{PlayerGameData, PlayerGameDataView};
use crate::logic::{find_game_player, game_index_of, lemma_game_index_from_bounds, GamePlayer,
    GamePlayerView};
use crate::ranking::{rank_results, ranks_from_entries, ScoreEntry};
use crate::Error;

verus! {

/// The rank of a playing card.
#[derive(Clone, Copy, Debug, PartialEq, Eq, Structural)]
pub enum CardNum {
    Ace,
    Two,
    Three,
    Four,
    Five,
    Six,
    Seven,
    Eight,
    Nine,
    Ten,
    Jack,
    Queen,
    King,
}

/// The suit of a playing card.
#[derive(Clone, Copy, Debug, PartialEq, Eq, Structural)]
pub enum CardColor {
    Spade,
    Heart,
    Club,
    Diamond,
}

/// One playing card.
#[derive(Clone, Copy, Debug, PartialEq, Eq, Structural)]
pub struct Card {
    pub number: CardNum,
    pub color: CardColor,
}

impl View for Card {
    type V = Card;

    open spec fn view(&self) -> Card {
        *self
    }
}

impl DeepView for Card {
    type V = Card;

    open spec fn deep_view(&self) -> Card {
        *self
    }
}

/// The card a deck position in `0 .. 52` stands for: the first thirteen
/// positions are the spades from ace to king, then hearts, clubs and
/// diamonds in the same rank order.
pub open spec fn spec_card_of(num: u8) -> Card {
    Card { number: spec_num_of((num % 13) as u8), color: spec_color_of((num / 13) as u8) }
}

/// The rank a residue in `0 .. 13` stands for.
pub open spec fn spec_num_of(num: u8) -> CardNum {
    if num == 0 {
        CardNum::Ace
    } else if num == 1 {
        CardNum::Two
    } else if num == 2 {
        CardNum::Three
    } else if num == 3 {
        CardNum::Four
    } else if num == 4 {
        CardNum::Five
    } else if num == 5 {
        CardNum::Six
    } else if num == 6 {
        CardNum::Seven
    } else if num == 7 {
        CardNum::Eight
    } else if num == 8 {
        CardNum::Nine
    } else if num == 9 {
        CardNum::Ten
    } else if num == 10 {
        CardNum::Jack
    } else if num == 11 {
        CardNum::Queen
    } else {
        CardNum::King
    }
}

/// The suit a quotient in `0 .. 4` stands for.
pub open spec fn spec_color_of(color: u8) -> CardColor {
    if color == 0 {
        CardColor::Spade
    } else if color == 1 {
        CardColor::Heart
    } else if color == 2 {
        CardColor::Club
    } else {
        CardColor::Diamond
    }
}

impl Card {
    /// The card a deck position in `0 .. 52` stands for.
    pub fn from_number(num: u8) -> (r: Card)
        requires
            num < 52,
        ensures
            r == spec_card_of(num),
    {
        let color_code: u8 = num / 13;
        let num_code: u8 = num % 13;
        let number = if num_code == 0 {
            CardNum::Ace
        } else if num_code == 1 {
            CardNum::Two
        } else if num_code == 2 {
            CardNum::Three
        } else if num_code == 3 {
            CardNum::Four
        } else if num_code == 4 {
            CardNum::Five
        } else if num_code == 5 {
            CardNum::Six
        } else if num_code == 6 {
            CardNum::Seven
        } else if num_code == 7 {
            CardNum::Eight
        } else if num_code == 8 {
            CardNum::Nine
        } else if num_code == 9 {
            CardNum::Ten
        } else if num_code == 10 {
            CardNum::Jack
        } else if num_code == 11 {
            CardNum::Queen
        } else {
            CardNum::King
        };
        let color = if color_code == 0 {
            CardColor::Spade
        } else if color_code == 1 {
            CardColor::Heart
        } else if color_code == 2 {
            CardColor::Club
        } else {
            CardColor::Diamond
        };
        Card { number, color }
    }
}

/// A player's private per-game data: their hand, and whether they have
/// voted to end the round.
pub struct BluffPlayerData {
    pub cards: Vec<Card>,
    pub end_turn_raised: bool,
}

/// The mathematical value of a [`BluffPlayerData`].
pub struct BluffPlayerDataView {
    pub cards: Seq<Card>,
    pub end_turn_raised: bool,
}

impl View for BluffPlayerData {
    type V = BluffPlayerDataView;

    open spec fn view(&self) -> BluffPlayerDataView {
        BluffPlayerDataView { cards: self.cards@, end_turn_raised: self.end_turn_raised }
    }
}

impl Clone for BluffPlayerData {
    fn clone(&self) -> (res: Self)
        ensures
            res@ == self@,
    {
        let cards = self.cards.clone();
        proof {
            assert forall|i: int| 0 <= i < self.cards@.len() implies cards@[i]
                == self.cards@[i] by {
                assert(cloned::<Card>(self.cards@[i], cards@[i]));
            }
            assert(cards@ =~= self.cards@);
        }
        BluffPlayerData { cards, end_turn_raised: self.end_turn_raised }
    }
}

/// The Bluff engine state.
pub struct Bluff {
    pub turn_start: String,
    pub turn: String,
    pub centered_card: Vec<Vec<Card>>,
    pub deck_card: Vec<Card>,
    pub claimed: Option<Card>,
}

/// The mathematical value of a [`Bluff`].
pub struct BluffView {
    pub turn_start: Seq<char>,
    pub turn: Seq<char>,
    pub centered_card: Seq<Seq<Card>>,
    pub deck_card: Seq<Card>,
    pub claimed: Option<Card>,
}

impl View for Bluff {
    type V = BluffView;

    open spec fn view(&self) -> BluffView {
        BluffView {
            turn_start: self.turn_start@,
            turn: self.turn@,
            centered_card: self.centered_card.deep_view(),
            deck_card: self.deck_card@,
            claimed: self.claimed,
        }
    }
}

impl Clone for Bluff {
    fn clone(&self) -> (res: Self)
        ensures
            res@ == self@,
    {
        let centered_card = self.centered_card.clone();
        let deck_card = self.deck_card.clone();
        proof {
            assert forall|i: int| 0 <= i < self.centered_card@.len() implies
                centered_card@[i].deep_view() == self.centered_card@[i].deep_view() by {
                assert(cloned::<Vec<Card>>(self.centered_card@[i], centered_card@[i]));
                assert forall|j: int| 0 <= j < self.centered_card@[i]@.len() implies
                    centered_card@[i]@[j] == self.centered_card@[i]@[j] by {
                    assert(cloned::<Card>(self.centered_card@[i]@[j], centered_card@[i]@[j]));
                }
                assert(centered_card@[i].deep_view() =~= self.centered_card@[i].deep_view());
            }
            assert(centered_card.deep_view() =~= self.centered_card.deep_view());
            assert forall|i: int| 0 <= i < self.deck_card@.len() implies deck_card@[i]
                == self.deck_card@[i] by {
                assert(cloned::<Card>(self.deck_card@[i], deck_card@[i]));
            }
            assert(deck_card@ =~= self.deck_card@);
        }
        Bluff {
            turn_start: self.turn_start.clone(),
            turn: self.turn.clone(),
            centered_card,
            deck_card,
            claimed: self.claimed,
        }
    }
}

/// The moves a Bluff player can send.
pub enum BluffPlayerMessages {
    /// Vote to end the round and reshuffle the pile away.
    RaiseEndRound,
    /// Deal cards face down under a claim.
    Deal(Vec<Card>, Card),
    /// Pass the turn.
    Pass,
    /// Flip the last deal and resolve the bluff.
    Flip,
}

/// The parameters a Bluff game is started with.
pub struct StartBluff {
    pub seed: u64,
}

/// The hand of a roster entry, empty unless it carries Bluff data.
pub open spec fn player_hand(p: GamePlayerView) -> Seq<Card> {
    match p.data {
        PlayerGameDataView::BluffPlayerData(d) => d.cards,
        _ => Seq::empty(),
    }
}

/// Whether a roster entry has voted to end the round.
pub open spec fn player_raised(p: GamePlayerView) -> bool {
    match p.data {
        PlayerGameDataView::BluffPlayerData(d) => d.end_turn_raised,
        _ => false,
    }
}

/// A well-formed Bluff roster: every entry carries Bluff data and the
/// roster is small enough for index arithmetic.
pub open spec fn bluff_players_wf(players: Seq<GamePlayerView>) -> bool {
    &&& players.len() <= 0x7FFF_FFFF
    &&& (forall|k: int| 0 <= k < players.len() ==> (#[trigger] players[k]).data
        is BluffPlayerData)
}

/// Whether the entry may take the next turn: connected and still holding
/// cards.
pub open spec fn spec_bluff_eligible(p: GamePlayerView) -> bool {
    p.send_channel is Some && player_hand(p).len() > 0
}

/// The id of the first eligible entry at cyclic distance `d` or more
/// from `pos`, scanning at most one full cycle.
pub open spec fn bluff_eligible_from(players: Seq<GamePlayerView>, pos: int, d: int) -> Option<
    Seq<char>,
>
    decreases players.len() + 1 - d,
{
    if d < 1 || d > players.len() {
        None
    } else {
        let q = players[(pos + d) % (players.len() as int)];
        if spec_bluff_eligible(q) {
            Some(q.player.id)
        } else {
            bluff_eligible_from(players, pos, d + 1)
        }
    }
}

/// The next turn-holder after the entry holding `from_id`: the first
/// connected card-holder after them in cyclic roster order.
pub open spec fn spec_bluff_next_after(players: Seq<GamePlayerView>, from_id: Seq<char>) -> Option<
    Seq<char>,
> {
    let pos = game_index_of(players, from_id);
    if pos < 0 {
        None
    } else {
        bluff_eligible_from(players, pos, 1)
    }
}

/// The comparison keys of the Bluff leaderboard: the fewer cards left,
/// the better.
pub open spec fn bluff_entries(players: Seq<GamePlayerView>) -> Seq<ScoreEntry> {
    Seq::new(
        players.len(),
        |k: int|
            ScoreEntry {
                score: (u64::MAX - player_hand(players[k]).len()) as u64,
                reached: 0,
                idx: k as usize,
            },
    )
}

/// The Bluff leaderboard, over the shared dense-ranking rule.
pub open spec fn spec_bluff_rankings(players: Seq<GamePlayerView>) -> Seq<RankView> {
    rank_results(bluff_entries(players), players)
}

/// When the Bluff game is over: at most one player is connected, or at
/// most one still holds cards.
pub open spec fn spec_bluff_is_game_end(players: Seq<GamePlayerView>) -> bool {
    crate::logic::count_connected(players, players.len() as int) <= 1 || count_with_cards(
        players,
        players.len() as int,
    ) <= 1
}

/// How many of the first `k` roster entries still hold cards.
pub open spec fn count_with_cards(players: Seq<GamePlayerView>, k: int) -> int
    decreases k,
{
    if k <= 0 {
        0
    } else {
        count_with_cards(players, k - 1) + if player_hand(players[k - 1]).len() > 0 {
            1int
        } else {
            0int
        }
    }
}

/// Does the list hold this card?
fn card_list_contains(v: &Vec<Card>, c: Card) -> (r: bool)
    ensures
        r == v@.contains(c),
{
    let mut i: usize = 0;
    while i < v.len()
        invariant
            0 <= i <= v@.len(),
            forall|t: int| 0 <= t < i ==> v@[t] != c,
        decreases v@.len() - i,
    {
        if v[i] == c {
            return true;
        }
        i += 1;
    }
    proof {
        assert(!v@.contains(c));
    }
    false
}

impl Bluff {
    /// True at all times: a Bluff game has no set-up phase.
    pub fn is_game_running(&self) -> (r: bool)
        ensures
            r == true,
    {
        true
    }

    /// True exactly when it is this player's turn.
    pub fn can_change_turn(&self, player_id: &String) -> (r: bool)
        ensures
            r == (self@.turn == player_id@),
    {
        self.turn == *player_id
    }

    /// Reassigns the turn unconditionally.
    pub fn change_turn(&mut self, player_id: &String)
        ensures
            final(self)@.turn == player_id@,
            final(self)@.turn_start == old(self)@.turn_start,
            final(self)@.centered_card == old(self)@.centered_card,
            final(self)@.deck_card == old(self)@.deck_card,
            final(self)@.claimed == old(self)@.claimed,
    {
        self.turn = player_id.clone();
    }

    /// The Bluff leaderboard: players rank by cards left, ascending,
    /// equal counts sharing a dense rank.
    #[verifier::loop_isolation(false)]
    pub fn get_rankings(&self, players: &Vec<GamePlayer>) -> (r: Vec<Rank>)
        requires
            bluff_players_wf(players.deep_view()),
        ensures
            r.deep_view() == spec_bluff_rankings(players.deep_view()),
    {
        let ghost ps = players.deep_view();
        let mut entries: Vec<ScoreEntry> = Vec::new();
        let mut k: usize = 0;
        while k < players.len()
            invariant
                0 <= k <= ps.len(),
                entries@.len() == k,
                forall|t: int| 0 <= t < k ==> #[trigger] entries@[t] == bluff_entries(ps)[t],
            decreases ps.len() - k,
        {
            proof {
                assert(players@[k as int]@ == ps[k as int]);
            }
            let held: usize = match &players[k].data {
                PlayerGameData::BluffPlayerData(d) => d.cards.len(),
                _ => 0,
            };
            entries.push(ScoreEntry { score: u64::MAX - (held as u64), reached: 0, idx: k });
            proof {
                assert(entries@[k as int] == bluff_entries(ps)[k as int]);
            }
            k += 1;
        }
        proof {
            assert(entries@ =~= bluff_entries(ps));
        }
        ranks_from_entries(&entries, players)
    }

    /// The next turn-holder: the first connected card-holder after the
    /// current one, cyclically; none when the holder is unknown or no
    /// eligible player remains.
    #[verifier::loop_isolation(false)]
    pub fn get_next_turn_player(&self, players: &Vec<GamePlayer>) -> (r: Option<String>)
        requires
            bluff_players_wf(players.deep_view()),
        ensures
            r.deep_view() == spec_bluff_next_after(players.deep_view(), self@.turn),
    {
        bluff_scan(players, &self.turn)
    }

    /// The opener of the next round: the first connected card-holder
    /// after the current round's opener, cyclically.
    #[verifier::loop_isolation(false)]
    pub fn get_next_round_player(&self, players: &Vec<GamePlayer>) -> (r: Option<String>)
        requires
            bluff_players_wf(players.deep_view()),
        ensures
            r.deep_view() == spec_bluff_next_after(players.deep_view(), self@.turn_start),
    {
        bluff_scan(players, &self.turn_start)
    }

    /// Whether the game is over, as [`spec_bluff_is_game_end`] describes.
    #[verifier::loop_isolation(false)]
    pub fn is_game_end(&self, players: &Vec<GamePlayer>) -> (r: bool)
        requires
            bluff_players_wf(players.deep_view()),
        ensures
            r == spec_bluff_is_game_end(players.deep_view()),
    {
        let ghost ps = players.deep_view();
        let mut connected: usize = 0;
        let mut with_cards: usize = 0;
        let mut k: usize = 0;
        while k < players.len()
            invariant
                0 <= k <= ps.len(),
                connected as int == crate::logic::count_connected(ps, k as int),
                with_cards as int == count_with_cards(ps, k as int),
                connected <= k,
                with_cards <= k,
            decreases ps.len() - k,
        {
            proof {
                assert(players@[k as int]@ == ps[k as int]);
            }
            if players[k].send_channel.is_some() {
                connected += 1;
            }
            let held: usize = match &players[k].data {
                PlayerGameData::BluffPlayerData(d) => d.cards.len(),
                _ => 0,
            };
            if held > 0 {
                with_cards += 1;
            }
            k += 1;
        }
        connected <= 1 || with_cards <= 1
    }
}

/// The cyclic scan shared by turn and round advancement.
#[verifier::loop_isolation(false)]
fn bluff_scan(players: &Vec<GamePlayer>, from_id: &String) -> (r: Option<String>)
    requires
        bluff_players_wf(players.deep_view()),
    ensures
        r.deep_view() == spec_bluff_next_after(players.deep_view(), from_id@),
{
    let ghost ps = players.deep_view();
    let pos = match find_game_player(players, from_id) {
        Some(pos) => pos,
        None => {
            proof {
                lemma_game_index_from_bounds(ps, from_id@, 0);
            }
            return None;
        },
    };
    proof {
        lemma_game_index_from_bounds(ps, from_id@, 0);
    }
    let n = players.len();
    let mut d: usize = 1;
    while d <= n
        invariant
            1 <= d <= n + 1,
            0 <= pos < n,
            bluff_eligible_from(ps, pos as int, 1) == bluff_eligible_from(ps, pos as int, d as int),
        decreases n + 1 - d,
    {
        let idx = (pos + d) % n;
        proof {
            assert(idx as int == (pos as int + d as int) % (ps.len() as int));
            assert(0 <= idx < n);
            assert(players@[idx as int]@ == ps[idx as int]);
        }
        let held: usize = match &players[idx].data {
            PlayerGameData::BluffPlayerData(dd) => dd.cards.len(),
            _ => 0,
        };
        if players[idx].send_channel.is_some() && held > 0 {
            let id = players[idx].player.id.clone();
            proof {
                assert(id@ == ps[idx as int].player.id);
                assert(Some(id).deep_view() == bluff_eligible_from(ps, pos as int, 1));
            }
            return Some(id);
        }
        d += 1;
    }
    proof {
        assert(bluff_eligible_from(ps, pos as int, d as int) is None);
    }
    None
}

/// The roster entry with its end-of-round vote set to `v`, untouched
/// unless it carries Bluff data.
pub open spec fn set_raised(p: GamePlayerView, v: bool) -> GamePlayerView {
    match p.data {
        PlayerGameDataView::BluffPlayerData(d) => GamePlayerView {
            player: p.player,
            data: PlayerGameDataView::BluffPlayerData(
                (BluffPlayerDataView { cards: d.cards, end_turn_raised: v }),
            ),
            send_channel: p.send_channel,
        },
        _ => p,
    }
}

/// The roster entry with its hand replaced, untouched unless it carries
/// Bluff data.
pub open spec fn set_hand(p: GamePlayerView, cards: Seq<Card>) -> GamePlayerView {
    match p.data {
        PlayerGameDataView::BluffPlayerData(d) => GamePlayerView {
            player: p.player,
            data: PlayerGameDataView::BluffPlayerData(
                (BluffPlayerDataView { cards, end_turn_raised: d.end_turn_raised }),
            ),
            send_channel: p.send_channel,
        },
        _ => p,
    }
}

/// Whether every roster entry has voted to end the round.
pub open spec fn all_raised(players: Seq<GamePlayerView>) -> bool {
    forall|k: int| 0 <= k < players.len() ==> player_raised(#[trigger] players[k])
}

/// The first `k` piles of the centre, in deal order, as one card list.
pub open spec fn piles_concat(cc: Seq<Seq<Card>>, k: int) -> Seq<Card>
    decreases k,
{
    if k <= 0 {
        Seq::empty()
    } else {
        piles_concat(cc, k - 1) + cc[k - 1]
    }
}

/// Everything `Bluff::handle_player_message` promises, as one predicate
/// over the states before and after, the rosters, the sender, the
/// message and the verdict.
pub open spec fn spec_bluff_outcome(
    b0: BluffView,
    ps0: Seq<GamePlayerView>,
    id: Seq<char>,
    message: BluffPlayerMessages,
    b1: BluffView,
    ps1: Seq<GamePlayerView>,
    r: Result<(), Error>,
) -> bool {
    &&& bluff_players_wf(ps1)
    &&& (r is Err ==> b1 == b0 && ps1 == ps0)
    &&& (message is RaiseEndRound ==> r is Ok && spec_raise_ok(b0, ps0, id, b1, ps1))
    &&& (message is Deal && b0.turn != id ==> r is Err && r->Err_0 == Error::NotYourTurn)
    &&& (message is Deal && b0.turn == id && b0.claimed is Some && b0.claimed->Some_0
        != message->Deal_1 ==> r is Err && r->Err_0 == Error::InvalidMove)
    &&& (message is Deal && b0.turn == id && (b0.claimed is None || b0.claimed->Some_0
        == message->Deal_1) ==> r is Ok && spec_deal_ok(
        b0,
        ps0,
        id,
        message->Deal_0@,
        message->Deal_1,
        b1,
        ps1,
    ))
    &&& (message is Pass && b0.turn != id ==> r is Err && r->Err_0 == Error::NotYourTurn)
    &&& (message is Pass && b0.turn == id ==> r is Ok && ps1 == ps0 && b1.turn_start
        == b0.turn_start && b1.centered_card == b0.centered_card && b1.deck_card == b0.deck_card
        && b1.claimed == b0.claimed && b1.turn == (match spec_bluff_next_after(ps0, id) {
        Some(t) => t,
        None => b0.turn,
    }))
    &&& (message is Flip && b0.turn != id ==> r is Err && r->Err_0 == Error::NotYourTurn)
    &&& (message is Flip && b0.turn == id ==> r is Ok && spec_flip_ok(b0, ps0, id, b1, ps1))
}

/// What an end-of-round vote does: the sender's vote is recorded, and
/// once everyone has voted and a next round-opener exists, the centre
/// returns to the deck and a fresh round starts with all votes cleared.
pub open spec fn spec_raise_ok(
    b0: BluffView,
    ps0: Seq<GamePlayerView>,
    id: Seq<char>,
    b1: BluffView,
    ps1: Seq<GamePlayerView>,
) -> bool {
    let i = game_index_of(ps0, id);
    let voted = if i >= 0 {
        ps0.update(i, set_raised(ps0[i], true))
    } else {
        ps0
    };
    if all_raised(voted) && spec_bluff_next_after(voted, b0.turn_start) is Some {
        let p = spec_bluff_next_after(voted, b0.turn_start)->Some_0;
        &&& ps1 == voted.map_values(|q: GamePlayerView| set_raised(q, false))
        &&& b1.turn == p
        &&& b1.turn_start == p
        &&& b1.deck_card == b0.deck_card + piles_concat(
            b0.centered_card,
            b0.centered_card.len() as int,
        )
        &&& b1.centered_card == Seq::<Seq<Card>>::empty()
        &&& b1.claimed is None
    } else {
        &&& ps1 == voted
        &&& b1 == b0
    }
}

/// What a successful deal does: the dealt cards leave the sender's hand,
/// the pile joins the centre under the claim, and the turn passes to the
/// next connected card-holder.
pub open spec fn spec_deal_ok(
    b0: BluffView,
    ps0: Seq<GamePlayerView>,
    id: Seq<char>,
    cards: Seq<Card>,
    claim: Card,
    b1: BluffView,
    ps1: Seq<GamePlayerView>,
) -> bool {
    let i = game_index_of(ps0, id);
    if i >= 0 {
        let hand1 = remove_cards(player_hand(ps0[i]), cards);
        let voted = ps0.update(i, set_hand(ps0[i], hand1));
        &&& ps1 == voted
        &&& b1.centered_card == b0.centered_card.push(cards)
        &&& b1.claimed == Some(claim)
        &&& b1.deck_card == b0.deck_card
        &&& b1.turn_start == b0.turn_start
        &&& b1.turn == (match spec_bluff_next_after(voted, id) {
            Some(t) => t,
            None => b0.turn,
        })
    } else {
        &&& ps1 == ps0
        &&& b1 == b0
    }
}

/// What a flip does: with a pile and a claim on the table, a truthful
/// last deal sends the whole centre to the challenger, a bluff sends it
/// to the round-opener; the receiver opens the next round.
pub open spec fn spec_flip_ok(
    b0: BluffView,
    ps0: Seq<GamePlayerView>,
    id: Seq<char>,
    b1: BluffView,
    ps1: Seq<GamePlayerView>,
) -> bool {
    if b0.centered_card.len() > 0 && b0.claimed is Some {
        let last = b0.centered_card.last();
        let truthful = forall|k: int| 0 <= k < last.len() ==> #[trigger] last[k]
            == b0.claimed->Some_0;
        let receiver = if truthful {
            id
        } else {
            b0.turn_start
        };
        let j = game_index_of(ps0, receiver);
        if j >= 0 {
            let hand1 = player_hand(ps0[j]) + piles_concat(
                b0.centered_card,
                b0.centered_card.len() as int,
            );
            &&& ps1 == ps0.update(j, set_hand(ps0[j], hand1))
            &&& b1.centered_card == Seq::<Seq<Card>>::empty()
            &&& b1.turn == receiver
            &&& b1.turn_start == receiver
            &&& b1.claimed is None
            &&& b1.deck_card == b0.deck_card
        } else {
            &&& ps1 == ps0
            &&& b1 == b0
        }
    } else {
        &&& ps1 == ps0
        &&& b1 == b0
    }
}

/// The hand with every dealt card removed.
pub open spec fn remove_cards(hand: Seq<Card>, cards: Seq<Card>) -> Seq<Card> {
    hand.filter(|f: Card| !cards.contains(f))
}

/// Removes every card of `cards` from `hand`.
#[verifier::loop_isolation(false)]
fn remove_cards_exec(hand: &Vec<Card>, cards: &Vec<Card>) -> (r: Vec<Card>)
    ensures
        r@ == remove_cards(hand@, cards@),
{
    let ghost pred = |f: Card| !cards@.contains(f);
    let mut out: Vec<Card> = Vec::new();
    let mut k: usize = 0;
    proof {
        reveal(Seq::filter);
        assert(hand@.subrange(0, 0).filter(pred) =~= Seq::<Card>::empty());
    }
    while k < hand.len()
        invariant
            0 <= k <= hand@.len(),
            out@ == hand@.subrange(0, k as int).filter(pred),
        decreases hand@.len() - k,
    {
        let keep = !card_list_contains(cards, hand[k]);
        proof {
            reveal(Seq::filter);
            assert(hand@.subrange(0, k as int + 1).drop_last() =~= hand@.subrange(0, k as int));
            assert(hand@.subrange(0, k as int + 1).last() == hand@[k as int]);
            assert(keep == pred(hand@[k as int]));
        }
        if keep {
            out.push(hand[k]);
        }
        k += 1;
    }
    proof {
        assert(hand@.subrange(0, hand@.len() as int) =~= hand@);
    }
    out
}

/// Appends every pile of the centre to `target`, in deal order.
#[verifier::loop_isolation(false)]
fn append_piles(target: &mut Vec<Card>, piles: &Vec<Vec<Card>>)
    ensures
        final(target)@ == old(target)@ + piles_concat(piles.deep_view(), piles.deep_view().len() as int),
{
    let ghost base = target@;
    let ghost cc = piles.deep_view();
    let mut i: usize = 0;
    proof {
        assert(base + piles_concat(cc, 0) =~= base);
    }
    while i < piles.len()
        invariant
            0 <= i <= cc.len(),
            target@ == base + piles_concat(cc, i as int),
        decreases cc.len() - i,
    {
        let mut j: usize = 0;
        proof {
            assert(cc[i as int] =~= piles@[i as int]@);
        }
        while j < piles[i].len()
            invariant
                0 <= i < cc.len(),
                0 <= j <= cc[i as int].len(),
                cc[i as int] == piles@[i as int]@,
                target@ == base + piles_concat(cc, i as int) + cc[i as int].subrange(0, j as int),
            decreases cc[i as int].len() - j,
        {
            target.push(piles[i][j]);
            proof {
                assert(target@ =~= base + piles_concat(cc, i as int) + cc[i as int].subrange(
                    0,
                    j as int + 1,
                ));
            }
            j += 1;
        }
        proof {
            assert(cc[i as int].subrange(0, cc[i as int].len() as int) =~= cc[i as int]);
            assert(base + piles_concat(cc, i as int + 1) =~= base + piles_concat(cc, i as int)
                + cc[i as int]);
        }
        i += 1;
    }
}

impl Bluff {
    /// Handles one in-game message, as [`spec_bluff_outcome`] describes:
    /// a vote to end the round, a face-down deal under a claim, a pass,
    /// or a flip of the last deal.
    #[verifier::loop_isolation(false)]
    pub fn handle_player_message(
        &mut self,
        player_id: &String,
        players: &mut Vec<GamePlayer>,
        message: BluffPlayerMessages,
    ) -> (r: Result<(), Error>)
        requires
            bluff_players_wf(old(players).deep_view()),
        ensures
            spec_bluff_outcome(
                old(self)@,
                old(players).deep_view(),
                player_id@,
                message,
                final(self)@,
                final(players).deep_view(),
                r,
            ),
    {
        let ghost b0 = self@;
        let ghost ps0 = players.deep_view();
        match message {
            BluffPlayerMessages::RaiseEndRound => {
                match find_game_player(players, player_id) {
                    Some(i) => {
                        proof {
                            lemma_game_index_from_bounds(ps0, player_id@, 0);
                        }
                        let p = players[i].player.clone();
                        let ghost old_entry = ps0[i as int];
                        let cards = match &players[i].data {
                            PlayerGameData::BluffPlayerData(d) => d.cards.clone(),
                            _ => Vec::new(),
                        };
                        proof {
                            assert(cards@ =~= player_hand(old_entry));
                        }
                        let sc = players[i].send_channel;
                        players[i] = GamePlayer {
                            player: p,
                            data: PlayerGameData::BluffPlayerData(
                                BluffPlayerData { cards, end_turn_raised: true },
                            ),
                            send_channel: sc,
                        };
                        proof {
                            assert(players.deep_view() =~= ps0.update(
                                i as int,
                                set_raised(old_entry, true),
                            ));
                        }
                    },
                    None => {
                        proof {
                            lemma_game_index_from_bounds(ps0, player_id@, 0);
                            assert(players.deep_view() =~= ps0);
                        }
                    },
                }
                let ghost voted = players.deep_view();
                let everyone = all_raised_exec(players);
                if everyone {
                    let next = self.get_next_round_player(players);
                    if let Some(p) = next {
                        clear_votes(players);
                        append_piles(&mut self.deck_card, &self.centered_card);
                        self.centered_card = Vec::new();
                        proof {
                            assert(self.centered_card.deep_view() =~= Seq::<Seq<Card>>::empty());
                        }
                        self.claimed = None;
                        self.turn = p.clone();
                        self.turn_start = p;
                    }
                }
                Ok(())
            },
            BluffPlayerMessages::Deal(cards, claim) => {
                if self.turn != *player_id {
                    return Err(Error::NotYourTurn);
                }
                if let Some(claimed_previously) = &self.claimed {
                    if *claimed_previously != claim {
                        return Err(Error::InvalidMove);
                    }
                }
                match find_game_player(players, player_id) {
                    Some(i) => {
                        proof {
                            lemma_game_index_from_bounds(ps0, player_id@, 0);
                        }
                        let p = players[i].player.clone();
                        let ghost old_entry = ps0[i as int];
                        let (hand, raised) = match &players[i].data {
                            PlayerGameData::BluffPlayerData(d) => (
                                remove_cards_exec(&d.cards, &cards),
                                d.end_turn_raised,
                            ),
                            _ => (Vec::new(), false),
                        };
                        proof {
                            assert(hand@ =~= remove_cards(player_hand(old_entry), cards@));
                        }
                        let sc = players[i].send_channel;
                        players[i] = GamePlayer {
                            player: p,
                            data: PlayerGameData::BluffPlayerData(
                                BluffPlayerData { cards: hand, end_turn_raised: raised },
                            ),
                            send_channel: sc,
                        };
                        proof {
                            assert(players.deep_view() =~= ps0.update(
                                i as int,
                                set_hand(
                                    old_entry,
                                    remove_cards(player_hand(old_entry), cards@),
                                ),
                            ));
                        }
                        let ghost pile = cards@;
                        let ghost cc0 = self.centered_card.deep_view();
                        self.centered_card.push(cards);
                        proof {
                            assert(self.centered_card.deep_view() =~~= cc0.push(pile));
                        }
                        self.claimed = Some(claim);
                        let next = self.get_next_turn_player(players);
                        if let Some(next_player) = next {
                            self.change_turn(&next_player);
                        }
                        Ok(())
                    },
                    None => {
                        proof {
                            lemma_game_index_from_bounds(ps0, player_id@, 0);
                            assert(players.deep_view() =~= ps0);
                        }
                        Ok(())
                    },
                }
            },
            BluffPlayerMessages::Pass => {
                if self.turn != *player_id {
                    return Err(Error::NotYourTurn);
                }
                let next = self.get_next_turn_player(players);
                if let Some(next_player) = next {
                    self.change_turn(&next_player);
                }
                Ok(())
            },
            BluffPlayerMessages::Flip => {
                if self.turn != *player_id {
                    return Err(Error::NotYourTurn);
                }
                if self.centered_card.len() == 0 || self.claimed.is_none() {
                    return Ok(());
                }
                let claim = match &self.claimed {
                    Some(c) => *c,
                    None => {
                        proof {
                            assert(false);
                        }
                        return Ok(());
                    },
                };
                let last_index = self.centered_card.len() - 1;
                let truthful = pile_all_equal(&self.centered_card[last_index], claim);
                proof {
                    assert(self.centered_card@[last_index as int]@ == b0.centered_card.last());
                }
                let receiver = if truthful {
                    player_id.clone()
                } else {
                    self.turn_start.clone()
                };
                match find_game_player(players, &receiver) {
                    Some(j) => {
                        proof {
                            lemma_game_index_from_bounds(ps0, receiver@, 0);
                        }
                        let p = players[j].player.clone();
                        let ghost old_entry = ps0[j as int];
                        let (mut hand, raised) = match &players[j].data {
                            PlayerGameData::BluffPlayerData(d) => (d.cards.clone(), d.end_turn_raised),
                            _ => (Vec::new(), false),
                        };
                        proof {
                            assert(hand@ =~= player_hand(old_entry));
                        }
                        append_piles(&mut hand, &self.centered_card);
                        let sc = players[j].send_channel;
                        players[j] = GamePlayer {
                            player: p,
                            data: PlayerGameData::BluffPlayerData(
                                BluffPlayerData { cards: hand, end_turn_raised: raised },
                            ),
                            send_channel: sc,
                        };
                        proof {
                            assert(players.deep_view() =~= ps0.update(
                                j as int,
                                set_hand(
                                    old_entry,
                                    player_hand(old_entry) + piles_concat(
                                        b0.centered_card,
                                        b0.centered_card.len() as int,
                                    ),
                                ),
                            ));
                        }
                        self.centered_card = Vec::new();
                        proof {
                            assert(self.centered_card.deep_view() =~= Seq::<Seq<Card>>::empty());
                        }
                        self.turn = receiver.clone();
                        self.turn_start = receiver;
                        self.claimed = None;
                        Ok(())
                    },
                    None => {
                        proof {
                            lemma_game_index_from_bounds(ps0, receiver@, 0);
                            assert(players.deep_view() =~= ps0);
                        }
                        Ok(())
                    },
                }
            },
        }
    }
}

/// Whether every card of the pile matches the claim.
#[verifier::loop_isolation(false)]
fn pile_all_equal(pile: &Vec<Card>, claim: Card) -> (r: bool)
    ensures
        r == (forall|k: int| 0 <= k < pile@.len() ==> #[trigger] pile@[k] == claim),
{
    let mut k: usize = 0;
    while k < pile.len()
        invariant
            0 <= k <= pile@.len(),
            forall|t: int| 0 <= t < k ==> #[trigger] pile@[t] == claim,
        decreases pile@.len() - k,
    {
        if !(pile[k] == claim) {
            return false;
        }
        k += 1;
    }
    true
}

/// Whether every roster entry has voted to end the round, executably.
#[verifier::loop_isolation(false)]
fn all_raised_exec(players: &Vec<GamePlayer>) -> (r: bool)
    ensures
        r == all_raised(players.deep_view()),
{
    let ghost ps = players.deep_view();
    let mut k: usize = 0;
    while k < players.len()
        invariant
            0 <= k <= ps.len(),
            forall|t: int| 0 <= t < k ==> player_raised(#[trigger] ps[t]),
        decreases ps.len() - k,
    {
        proof {
            assert(players@[k as int]@ == ps[k as int]);
        }
        let raised = match &players[k].data {
            PlayerGameData::BluffPlayerData(d) => d.end_turn_raised,
            _ => false,
        };
        if !raised {
            proof {
                assert(!player_raised(ps[k as int]));
            }
            return false;
        }
        k += 1;
    }
    true
}

/// Clears every roster entry's end-of-round vote.
#[verifier::loop_isolation(false)]
fn clear_votes(players: &mut Vec<GamePlayer>)
    ensures
        final(players).deep_view() == old(players).deep_view().map_values(
            |q: GamePlayerView| set_raised(q, false),
        ),
{
    let ghost ps = players.deep_view();
    let mut k: usize = 0;
    while k < players.len()
        invariant
            0 <= k <= ps.len(),
            players@.len() == ps.len(),
            forall|t: int| 0 <= t < k ==> #[trigger] players.deep_view()[t] == set_raised(
                ps[t],
                false,
            ),
            forall|t: int| k <= t < ps.len() ==> #[trigger] players.deep_view()[t] == ps[t],
        decreases ps.len() - k,
    {
        proof {
            assert(players@[k as int]@ == players.deep_view()[k as int]);
        }
        let ghost pre = players.deep_view();
        let p = players[k].player.clone();
        let sc = players[k].send_channel;
        let entry = match &players[k].data {
            PlayerGameData::BluffPlayerData(d) => {
                let cards = d.cards.clone();
                proof {
                    assert(cards@ =~= player_hand(ps[k as int]));
                }
                GamePlayer {
                    player: p,
                    data: PlayerGameData::BluffPlayerData(
                        BluffPlayerData { cards, end_turn_raised: false },
                    ),
                    send_channel: sc,
                }
            },
            _ => {
                let data = players[k].data.clone();
                GamePlayer { player: p, data, send_channel: sc }
            },
        };
        let ghost ev = entry@;
        players[k] = entry;
        proof {
            assert(players.deep_view() =~= pre.update(k as int, ev));
            assert(players.deep_view()[k as int] == set_raised(ps[k as int], false));
        }
        k += 1;
    }
    proof {
        assert(players.deep_view() =~= ps.map_values(|q: GamePlayerView| set_raised(q, false)));
    }
}

/// Whether deck position `t` is dealt to some player under the given
/// seed: the dealt positions form the seed-rotated block of `n` equal
/// shares.
pub open spec fn position_dealt(seed: u64, n: int, t: int) -> bool {
    n >= 1 && exists|p: int| 0 <= p < n * (52int / n) && #[trigger] rotated(seed, p) == t
}

/// The deck position `p` steps after the seed's offset, wrapping.
pub open spec fn rotated(seed: u64, p: int) -> int {
    ((seed as int % 52) + p) % 52
}

/// The cards among the first `k` deck positions that the deal leaves
/// undealt, in position order: the starting deck.
pub open spec fn spec_bluff_deck(seed: u64, n: int, k: int) -> Seq<Card>
    decreases k,
{
    if k <= 0 {
        Seq::empty()
    } else {
        spec_bluff_deck(seed, n, k - 1) + (if position_dealt(seed, n, k - 1) {
            Seq::empty()
        } else {
            seq![spec_card_of((k - 1) as u8)]
        })
    }
}

/// The hand dealt to the player at roster position `idx` of `n` under
/// the given seed: an equal share of the deck, read off a seed-rotated
/// circle of the 52 positions, so that distinct positions get disjoint
/// hands.
pub open spec fn spec_bluff_hand(seed: u64, n: int, idx: int) -> Seq<Card> {
    if n <= 0 || idx < 0 {
        Seq::empty()
    } else {
        let h: int = 52int / n;
        Seq::new(h as nat, |j: int| spec_card_of((((seed as int % 52) + idx * h + j) % 52) as u8))
    }
}

impl Bluff {
    /// A fresh Bluff game: the given player opens the first round, the
    /// centre is empty, and the deck holds every card the seed-determined
    /// deal leaves with nobody.
    #[verifier::loop_isolation(false)]
    pub fn start_game(
        data: StartBluff,
        players: &Vec<crate::data::Player>,
        player_id: &String,
    ) -> (r: Self)
        ensures
            r@.turn_start == player_id@,
            r@.turn == player_id@,
            r@.centered_card == Seq::<Seq<Card>>::empty(),
            r@.claimed is None,
            r@.deck_card == spec_bluff_deck(data.seed, players@.len() as int, 52),
    {
        let ghost n = players@.len() as int;
        let mut dealt: Vec<bool> = Vec::new();
        let mut t: usize = 0;
        while t < 52
            invariant
                0 <= t <= 52,
                dealt@.len() == t,
                forall|u: int| 0 <= u < t ==> !(#[trigger] dealt@[u]),
            decreases 52 - t,
        {
            dealt.push(false);
            t += 1;
        }
        if players.len() > 0 {
            let h: usize = 52 / players.len();
            proof {
                vstd::arithmetic::div_mod::lemma_fundamental_div_mod(52, n);
                assert(n * (52int / n) <= 52);
            }
            let total: usize = players.len() * h;
            let offset: usize = (data.seed % 52) as usize;
            let mut p: usize = 0;
            while p < total
                invariant
                    0 <= p <= total,
                    total == n * (52int / n),
                    total <= 52,
                    offset == data.seed as int % 52,
                    offset < 52,
                    n >= 1,
                    dealt@.len() == 52,
                    forall|u: int| 0 <= u < 52 ==> ((#[trigger] dealt@[u]) <==> exists|q: int|
                        0 <= q < p && #[trigger] rotated(data.seed, q) == u),
                decreases total - p,
            {
                let u: usize = (offset + p) % 52;
                proof {
                    assert(u as int == rotated(data.seed, p as int));
                    assert(0 <= u < 52);
                }
                dealt[u] = true;
                p += 1;
            }
            proof {
                assert forall|u: int| 0 <= u < 52 implies ((#[trigger] dealt@[u])
                    <==> position_dealt(data.seed, n, u)) by {}
            }
        } else {
            proof {
                assert forall|u: int| 0 <= u < 52 implies ((#[trigger] dealt@[u])
                    <==> position_dealt(data.seed, n, u)) by {}
            }
        }
        let mut deck: Vec<Card> = Vec::new();
        let mut t: usize = 0;
        proof {
            assert(deck@ =~= spec_bluff_deck(data.seed, n, 0));
        }
        while t < 52
            invariant
                0 <= t <= 52,
                n == players@.len() as int,
                dealt@.len() == 52,
                forall|u: int| 0 <= u < 52 ==> ((#[trigger] dealt@[u]) <==> position_dealt(
                    data.seed,
                    n,
                    u,
                )),
                deck@ == spec_bluff_deck(data.seed, n, t as int),
            decreases 52 - t,
        {
            if !dealt[t] {
                let card = Card::from_number(t as u8);
                deck.push(card);
                proof {
                    assert(deck@ =~= spec_bluff_deck(data.seed, n, t as int + 1));
                }
            } else {
                proof {
                    assert(deck@ =~= spec_bluff_deck(data.seed, n, t as int + 1));
                }
            }
            t += 1;
        }
        let centered_card: Vec<Vec<Card>> = Vec::new();
        proof {
            assert(centered_card.deep_view() =~= Seq::<Seq<Card>>::empty());
        }
        Bluff {
            turn_start: player_id.clone(),
            turn: player_id.clone(),
            centered_card,
            deck_card: deck,
            claimed: None,
        }
    }

    /// The hand dealt to the named player: their seed-determined share
    /// of the deck, with no end-of-round vote cast.
    #[verifier::loop_isolation(false)]
    pub fn create_player_data(
        data: &StartBluff,
        players: &Vec<crate::data::Player>,
        player_id: &String,
    ) -> (r: BluffPlayerData)
        ensures
            r@.cards == spec_bluff_hand(
                data.seed,
                players@.len() as int,
                crate::data::player_index_of(players.deep_view(), player_id@),
            ),
            !r@.end_turn_raised,
    {
        let n = players.len();
        if n == 0 {
            let cards: Vec<Card> = Vec::new();
            proof {
                assert(cards@ =~= Seq::<Card>::empty());
            }
            return BluffPlayerData { cards, end_turn_raised: false };
        }
        let idx = match crate::data::find_player(players, player_id) {
            Some(i) => i,
            None => {
                proof {
                    crate::data::lemma_player_index_from_bounds(
                        players.deep_view(),
                        player_id@,
                        0,
                    );
                }
                let cards: Vec<Card> = Vec::new();
                proof {
                    assert(cards@ =~= Seq::<Card>::empty());
                }
                return BluffPlayerData { cards, end_turn_raised: false };
            },
        };
        proof {
            crate::data::lemma_player_index_from_bounds(players.deep_view(), player_id@, 0);
        }
        let h: usize = 52 / n;
        proof {
            vstd::arithmetic::div_mod::lemma_fundamental_div_mod(52, n as int);
            assert(n as int * (52int / n as int) <= 52);
            assert(idx as int * h as int <= (n as int - 1) * (52int / n as int))
                by (nonlinear_arith)
                requires
                    0 <= idx as int <= n as int - 1,
                    h as int == 52int / n as int,
                    h >= 0,
            ;
            assert((n as int - 1) * (52int / n as int) <= 52) by (nonlinear_arith)
                requires
                    n as int * (52int / n as int) <= 52,
                    52int / n as int >= 0,
                    n >= 1,
            ;
        }
        let offset: usize = (data.seed % 52) as usize;
        let mut cards: Vec<Card> = Vec::new();
        let mut j: usize = 0;
        while j < h
            invariant
                0 <= j <= h,
                h as int == 52int / (n as int),
                0 <= idx < n,
                idx * h <= 52,
                offset == data.seed % 52,
                offset < 52,
                cards@.len() == j,
                forall|u: int| 0 <= u < j ==> #[trigger] cards@[u] == spec_bluff_hand(
                    data.seed,
                    n as int,
                    idx as int,
                )[u],
            decreases h - j,
        {
            let num: u8 = ((offset + idx * h + j) % 52) as u8;
            let card = Card::from_number(num);
            proof {
                assert(spec_bluff_hand(data.seed, n as int, idx as int)[j as int] == spec_card_of(
                    (((data.seed % 52) + idx * h + j) % 52) as u8,
                ));
            }
            cards.push(card);
            j += 1;
        }
        proof {
            assert(cards@ =~= spec_bluff_hand(data.seed, n as int, idx as int));
        }
        BluffPlayerData { cards, end_turn_raised: false }
    }
}

} // verus!
