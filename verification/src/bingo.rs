//! The Bingo engine: a grid-completion race.
//!
//! Each player owns a private `board_size` x `board_size` board of distinct
//! numbers.  After every player has submitted a valid board the game runs:
//! the turn-holder calls a number, every board containing it clears that
//! cell, and a player's score is the count of fully cleared rows, columns
//! and diagonals.  A player is done at score `board_size`; the game ends
//! when at most one connected player is still below that.

use vstd::prelude::*;

use crate::data::{Rank, RankView};
use crate::games::PlayerGameDataView;
use crate::logic::{count_connected, find_game_player, game_index_from, game_index_of, lemma_game_index_from_bounds, GamePlayer, GamePlayerView};
use crate::ranking::{rank_results, ranks_from_entries, ScoreEntry};
use crate::utils::pick_index;
use crate::Error;

verus! {

/// A called number.
pub type Cell = u32;

/// One entry of the call history: the number and who called it.
pub struct SelectedCell {
    pub cell_value: Cell,
    pub selected_by: String,
}

/// The mathematical value of a [`SelectedCell`].
pub struct SelectedCellView {
    pub cell_value: Cell,
    pub selected_by: Seq<char>,
}

impl View for SelectedCell {
    type V = SelectedCellView;

    open spec fn view(&self) -> SelectedCellView {
        SelectedCellView { cell_value: self.cell_value, selected_by: self.selected_by@ }
    }
}

impl DeepView for SelectedCell {
    type V = SelectedCellView;

    open spec fn deep_view(&self) -> SelectedCellView {
        self.view()
    }
}

impl Clone for SelectedCell {
    fn clone(&self) -> (res: Self)
        ensures
            res@ == self@,
    {
        SelectedCell { cell_value: self.cell_value, selected_by: self.selected_by.clone() }
    }
}

/// The numbers a call history has called, oldest first.
pub open spec fn called_of(h: Seq<SelectedCellView>) -> Seq<u32> {
    h.map_values(|c: SelectedCellView| c.cell_value)
}

/// A player's private board: a square grid of numbers.
pub struct Board {
    pub numbers: Vec<Vec<Cell>>,
}

impl View for Board {
    type V = Seq<Seq<u32>>;

    open spec fn view(&self) -> Seq<Seq<u32>> {
        self.numbers.deep_view()
    }
}

impl DeepView for Board {
    type V = Seq<Seq<u32>>;

    open spec fn deep_view(&self) -> Seq<Seq<u32>> {
        self.view()
    }
}

impl Clone for Board {
    fn clone(&self) -> (res: Self)
        ensures
            res@ == self@,
    {
        let numbers = self.numbers.clone();
        proof {
            assert forall|i: int| 0 <= i < self.numbers@.len() implies numbers@[i].deep_view()
                == self.numbers@[i].deep_view() by {
                assert(cloned::<Vec<Cell>>(self.numbers@[i], numbers@[i]));
                assert forall|j: int|
                    0 <= j < self.numbers@[i]@.len() implies numbers@[i]@[j]
                    == self.numbers@[i]@[j] by {
                    assert(cloned::<Cell>(self.numbers@[i]@[j], numbers@[i]@[j]));
                }
                assert(numbers@[i].deep_view() =~= self.numbers@[i].deep_view());
            }
            assert(numbers.deep_view() =~= self.numbers.deep_view());
        }
        Board { numbers }
    }
}

/// True when every row of `b` is as long as `b` itself: the shape every
/// board operation relies on.
pub open spec fn board_square(b: Seq<Seq<u32>>) -> bool {
    forall|i: int| 0 <= i < b.len() ==> #[trigger] b[i].len() == b.len()
}

/// A well-formed board: square and small enough for its line count to fit
/// the score type.
impl Board {
    pub open spec fn wf(&self) -> bool {
        board_square(self@) && self@.len() <= 0xFFFF
    }
}

/// A valid submission for board size `n`: an `n` x `n` grid of pairwise
/// distinct values drawn from `1 ..= n * n`.
pub open spec fn valid_board(b: Seq<Seq<u32>>, n: int) -> bool {
    &&& b.len() == n
    &&& (forall|i: int| 0 <= i < n ==> #[trigger] b[i].len() == n)
    &&& (forall|i: int, j: int|
        0 <= i < n && 0 <= j < n ==> 1 <= (#[trigger] b[i][j]) as int <= n * n)
    &&& (forall|i: int, j: int, k: int, l: int|
        0 <= i < n && 0 <= j < n && 0 <= k < n && 0 <= l < n && (i != k || j != l)
            ==> #[trigger] b[i][j] != #[trigger] b[k][l])
}

/// Whether row `i` of `b` is fully called under history `h`.
pub open spec fn row_cleared(b: Seq<Seq<u32>>, h: Seq<u32>, i: int) -> bool {
    forall|j: int| 0 <= j < b[i].len() ==> h.contains(#[trigger] b[i][j])
}

/// Whether column `j` of `b` is fully called under history `h`.
pub open spec fn col_cleared(b: Seq<Seq<u32>>, h: Seq<u32>, j: int) -> bool {
    forall|i: int| 0 <= i < b.len() ==> h.contains(#[trigger] b[i][j])
}

/// Whether the main diagonal of `b` is fully called under history `h`.
pub open spec fn diag_main_cleared(b: Seq<Seq<u32>>, h: Seq<u32>) -> bool {
    forall|i: int| 0 <= i < b.len() ==> h.contains(#[trigger] b[i][i])
}

/// Whether the anti-diagonal of `b` is fully called under history `h`.
pub open spec fn diag_anti_cleared(b: Seq<Seq<u32>>, h: Seq<u32>) -> bool {
    forall|i: int| 0 <= i < b.len() ==> h.contains(#[trigger] b[i][b.len() - 1 - i])
}

/// How many of the first `k` rows of `b` are fully called.
pub open spec fn rows_cleared_upto(b: Seq<Seq<u32>>, h: Seq<u32>, k: int) -> int
    decreases k,
{
    if k <= 0 {
        0
    } else {
        rows_cleared_upto(b, h, k - 1) + if row_cleared(b, h, k - 1) {
            1int
        } else {
            0int
        }
    }
}

/// How many of the first `k` columns of `b` are fully called.
pub open spec fn cols_cleared_upto(b: Seq<Seq<u32>>, h: Seq<u32>, k: int) -> int
    decreases k,
{
    if k <= 0 {
        0
    } else {
        cols_cleared_upto(b, h, k - 1) + if col_cleared(b, h, k - 1) {
            1int
        } else {
            0int
        }
    }
}

/// The score of board `b` under history `h`: cleared rows plus cleared
/// columns plus one for each cleared diagonal.
pub open spec fn board_score(b: Seq<Seq<u32>>, h: Seq<u32>) -> int {
    rows_cleared_upto(b, h, b.len() as int) + cols_cleared_upto(b, h, b.len() as int) + (
    if diag_main_cleared(b, h) {
        1int
    } else {
        0int
    }) + (if diag_anti_cleared(b, h) {
        1int
    } else {
        0int
    })
}

proof fn lemma_rows_cleared_upto_bounds(b: Seq<Seq<u32>>, h: Seq<u32>, k: int)
    requires
        k >= 0,
    ensures
        0 <= rows_cleared_upto(b, h, k) <= k,
        0 <= cols_cleared_upto(b, h, k) <= k,
    decreases k,
{
    if k > 0 {
        lemma_rows_cleared_upto_bounds(b, h, k - 1);
    }
}

/// Does history `h` contain the value `v`?
fn slice_contains_value(selected: &[SelectedCell], v: u32) -> (r: bool)
    ensures
        r == called_of(selected.deep_view()).contains(v),
{
    let ghost called = called_of(selected.deep_view());
    let mut i: usize = 0;
    while i < selected.len()
        invariant
            0 <= i <= selected.len(),
            called == called_of(selected.deep_view()),
            called.len() == selected.len(),
            forall|k: int| 0 <= k < selected.len() ==> called[k]
                == #[trigger] selected.deep_view()[k].cell_value,
            forall|k: int| 0 <= k < i ==> #[trigger] called[k] != v,
        decreases selected.len() - i,
    {
        if selected[i].cell_value == v {
            assert(called[i as int] == v);
            return true;
        }
        i += 1;
    }
    assert(!called.contains(v));
    false
}

impl Board {
    /// Validates a submitted grid: accepts exactly the square grids of
    /// `board_size * board_size` pairwise distinct values in range.
    pub fn new(numbers: Vec<Vec<Cell>>, board_size: u16) -> (r: Result<Self, Error>)
        ensures
            r is Ok <==> valid_board(numbers.deep_view(), board_size as int),
            r is Ok ==> r->Ok_0@ == numbers.deep_view(),
            r is Err ==> r->Err_0 == Error::InvalidBoard,
    {
        let ghost b = numbers.deep_view();
        let ghost n = board_size as int;
        let nn: usize = board_size as usize;
        proof {
            assert(b.len() == numbers@.len());
        }
        if numbers.len() != nn {
            return Err(Error::InvalidBoard);
        }
        proof {
            assert(nn * nn <= 0xFFFF * 0xFFFF) by (nonlinear_arith)
                requires
                    nn <= 0xFFFF,
            ;
        }
        let total: usize = nn * nn;
        let mut seen: Vec<bool> = Vec::new();
        let mut t: usize = 0;
        while t < total
            invariant
                seen@.len() == t,
                t <= total,
                forall|w: int| 0 <= w < t ==> !(#[trigger] seen@[w]),
            decreases total - t,
        {
            seen.push(false);
            t += 1;
        }
        let mut i: usize = 0;
        while i < nn
            invariant
                0 <= i <= nn,
                nn == n,
                total == n * n,
                b == numbers.deep_view(),
                numbers@.len() == n,
                seen@.len() == total,
                forall|r: int| 0 <= r < i ==> #[trigger] numbers@[r]@.len() == n,
                forall|r: int, c: int|
                    0 <= r < i && 0 <= c < n ==> 1 <= (#[trigger] numbers@[r]@[c]) as int <= n * n,
                forall|w: int| 0 <= w < total ==> ((#[trigger] seen@[w]) <==> exists|r: int, c: int|
                    0 <= r < i && 0 <= c < n && (#[trigger] numbers@[r]@[c]) as int == w + 1),
                forall|r: int, c: int, r2: int, c2: int|
                    0 <= r < i && 0 <= c < n && 0 <= r2 < i && 0 <= c2 < n && (r != r2 || c != c2)
                        ==> #[trigger] numbers@[r]@[c] != #[trigger] numbers@[r2]@[c2],
            decreases nn - i,
        {
            if numbers[i].len() != nn {
                proof {
                    assert(b[i as int].len() == numbers@[i as int]@.len());
                }
                return Err(Error::InvalidBoard);
            }
            let mut j: usize = 0;
            while j < nn
                invariant
                    0 <= i < nn,
                    0 <= j <= nn,
                    nn == n,
                    total == n * n,
                    b == numbers.deep_view(),
                    numbers@.len() == n,
                    numbers@[i as int]@.len() == n,
                    seen@.len() == total,
                    forall|r: int| 0 <= r < i ==> #[trigger] numbers@[r]@.len() == n,
                    forall|r: int, c: int|
                        0 <= r < i && 0 <= c < n ==> 1 <= (#[trigger] numbers@[r]@[c]) as int <= n
                            * n,
                    forall|c: int| 0 <= c < j ==> 1 <= (#[trigger] numbers@[i as int]@[c]) as int
                        <= n * n,
                    forall|w: int| 0 <= w < total ==> ((#[trigger] seen@[w]) <==> exists|
                        r: int,
                        c: int,
                    |
                        0 <= r < n && 0 <= c < n && (r < i || (r == i && c < j)) && (
                        #[trigger] numbers@[r]@[c]) as int == w + 1),
                    forall|r: int, c: int, r2: int, c2: int|
                        0 <= r < n && 0 <= c < n && 0 <= r2 < n && 0 <= c2 < n && (r < i || (r == i
                            && c < j)) && (r2 < i || (r2 == i && c2 < j)) && (r != r2 || c != c2)
                            ==> #[trigger] numbers@[r]@[c] != #[trigger] numbers@[r2]@[c2],
                decreases nn - j,
            {
                let v: u32 = numbers[i][j];
                if v < 1 || (v as usize) > total {
                    proof {
                        assert(b[i as int][j as int] == numbers@[i as int]@[j as int]);
                    }
                    return Err(Error::InvalidBoard);
                }
                let w: usize = (v as usize) - 1;
                if seen[w] {
                    proof {
                        let (r, c) = choose|r: int, c: int|
                            0 <= r < n && 0 <= c < n && (r < i || (r == i && c < j)) && (
                            #[trigger] numbers@[r]@[c]) as int == w + 1;
                        assert(numbers@[r]@[c] == v);
                        assert(b[r][c] == numbers@[r]@[c]);
                        assert(b[i as int][j as int] == numbers@[i as int]@[j as int]);
                        assert(!(r == i && c == j));
                        assert(!valid_board(b, n));
                    }
                    return Err(Error::InvalidBoard);
                }
                seen[w] = true;
                j += 1;
            }
            i += 1;
        }
        proof {
            assert forall|r: int| 0 <= r < n implies #[trigger] b[r].len() == n by {
                assert(b[r].len() == numbers@[r]@.len());
            }
            assert forall|r: int, c: int| 0 <= r < n && 0 <= c < n implies 1 <= (
            #[trigger] b[r][c]) as int <= n * n by {
                assert(b[r][c] == numbers@[r]@[c]);
            }
            assert forall|r: int, c: int, r2: int, c2: int|
                0 <= r < n && 0 <= c < n && 0 <= r2 < n && 0 <= c2 < n && (r != r2 || c != c2)
                implies #[trigger] b[r][c] != #[trigger] b[r2][c2] by {
                assert(b[r][c] == numbers@[r]@[c]);
                assert(b[r2][c2] == numbers@[r2]@[c2]);
            }
            assert(valid_board(b, n));
        }
        Ok(Board { numbers })
    }

    /// The score of this board under the given call history.
    pub fn get_score(&self, selected_cells: &[SelectedCell]) -> (r: u32)
        requires
            self.wf(),
        ensures
            r as int == board_score(self@, called_of(selected_cells.deep_view())),
    {
        let ghost b = self@;
        let ghost h = called_of(selected_cells.deep_view());
        let n: usize = self.numbers.len();
        proof {
            assert(b.len() == n);
            assert forall|r: int| 0 <= r < n implies #[trigger] self.numbers@[r]@.len() == n by {
                assert(b[r].len() == self.numbers@[r]@.len());
                assert(b[r].len() == b.len());
            }
            assert forall|r: int, c: int| 0 <= r < n && 0 <= c < n implies #[trigger] b[r][c]
                == self.numbers@[r]@[c] by {}
        }
        let mut points: u32 = 0;
        // Cleared rows.
        let mut i: usize = 0;
        while i < n
            invariant
                0 <= i <= n,
                b == self@,
                b.len() == n,
                n <= 0xFFFF,
                board_square(b),
                h == called_of(selected_cells.deep_view()),
                forall|r: int| 0 <= r < n ==> #[trigger] self.numbers@[r]@.len() == n,
                forall|r: int, c: int| 0 <= r < n && 0 <= c < n ==> #[trigger] b[r][c]
                    == self.numbers@[r]@[c],
                points as int == rows_cleared_upto(b, h, i as int),
                points <= i,
            decreases n - i,
        {
            let mut j: usize = 0;
            let mut all_called = true;
            while j < n
                invariant
                    0 <= i < n,
                    0 <= j <= n,
                    b == self@,
                    b.len() == n,
                    board_square(b),
                    h == called_of(selected_cells.deep_view()),
                    forall|r: int| 0 <= r < n ==> #[trigger] self.numbers@[r]@.len() == n,
                    forall|r: int, c: int| 0 <= r < n && 0 <= c < n ==> #[trigger] b[r][c]
                        == self.numbers@[r]@[c],
                    all_called <==> (forall|c: int| 0 <= c < j ==> h.contains(
                        #[trigger] b[i as int][c],
                    )),
                decreases n - j,
            {
                let hit = slice_contains_value(selected_cells, self.numbers[i][j]);
                proof {
                    assert(b[i as int][j as int] == self.numbers@[i as int]@[j as int]);
                }
                if !hit {
                    all_called = false;
                }
                j += 1;
            }
            proof {
                assert(b[i as int].len() == b.len());
                assert(all_called == row_cleared(b, h, i as int));
            }
            if all_called {
                points += 1;
            }
            i += 1;
        }
        // Cleared columns.
        let ghost row_points = points as int;
        let mut j: usize = 0;
        while j < n
            invariant
                0 <= j <= n,
                b == self@,
                b.len() == n,
                n <= 0xFFFF,
                board_square(b),
                h == called_of(selected_cells.deep_view()),
                forall|r: int| 0 <= r < n ==> #[trigger] self.numbers@[r]@.len() == n,
                forall|r: int, c: int| 0 <= r < n && 0 <= c < n ==> #[trigger] b[r][c]
                    == self.numbers@[r]@[c],
                row_points == rows_cleared_upto(b, h, n as int),
                points as int == row_points + cols_cleared_upto(b, h, j as int),
                points <= n + j,
            decreases n - j,
        {
            let mut i2: usize = 0;
            let mut all_called = true;
            while i2 < n
                invariant
                    0 <= j < n,
                    0 <= i2 <= n,
                    b == self@,
                    b.len() == n,
                    board_square(b),
                    h == called_of(selected_cells.deep_view()),
                    forall|r: int| 0 <= r < n ==> #[trigger] self.numbers@[r]@.len() == n,
                    forall|r: int, c: int| 0 <= r < n && 0 <= c < n ==> #[trigger] b[r][c]
                        == self.numbers@[r]@[c],
                    all_called <==> (forall|r: int| 0 <= r < i2 ==> h.contains(
                        #[trigger] b[r][j as int],
                    )),
                decreases n - i2,
            {
                let hit = slice_contains_value(selected_cells, self.numbers[i2][j]);
                proof {
                    assert(b[i2 as int][j as int] == self.numbers@[i2 as int]@[j as int]);
                }
                if !hit {
                    all_called = false;
                }
                i2 += 1;
            }
            proof {
                assert(all_called == col_cleared(b, h, j as int));
            }
            if all_called {
                points += 1;
            }
            j += 1;
        }
        // The two diagonals.
        let mut d: usize = 0;
        let mut main_ok = true;
        let mut anti_ok = true;
        while d < n
            invariant
                0 <= d <= n,
                b == self@,
                b.len() == n,
                board_square(b),
                h == called_of(selected_cells.deep_view()),
                forall|r: int| 0 <= r < n ==> #[trigger] self.numbers@[r]@.len() == n,
                forall|r: int, c: int| 0 <= r < n && 0 <= c < n ==> #[trigger] b[r][c]
                    == self.numbers@[r]@[c],
                main_ok <==> (forall|r: int| 0 <= r < d ==> h.contains(#[trigger] b[r][r])),
                anti_ok <==> (forall|r: int| 0 <= r < d ==> h.contains(
                    #[trigger] b[r][b.len() - 1 - r],
                )),
            decreases n - d,
        {
            let hit_main = slice_contains_value(selected_cells, self.numbers[d][d]);
            let hit_anti = slice_contains_value(selected_cells, self.numbers[d][n - 1 - d]);
            proof {
                assert(b[d as int][d as int] == self.numbers@[d as int]@[d as int]);
                assert(b[d as int][b.len() - 1 - d as int] == self.numbers@[d as int]@[(n - 1 - d) as int]);
            }
            if !hit_main {
                main_ok = false;
            }
            if !hit_anti {
                anti_ok = false;
            }
            d += 1;
        }
        proof {
            assert(main_ok == diag_main_cleared(b, h));
            assert(anti_ok == diag_anti_cleared(b, h));
            lemma_rows_cleared_upto_bounds(b, h, n as int);
        }
        if main_ok {
            points += 1;
        }
        if anti_ok {
            points += 1;
        }
        points
    }

    /// The score at which this board counts as complete: one per line.
    pub fn wining_points(&self) -> (r: u32)
        requires
            self.wf(),
        ensures
            r as int == self@.len(),
    {
        self.numbers.len() as u32
    }

    /// Whether this board has reached its winning score.
    pub fn has_completed(&self, selected_cells: &[SelectedCell]) -> (r: bool)
        requires
            self.wf(),
        ensures
            r == (board_score(self@, called_of(selected_cells.deep_view())) >= self@.len()),
    {
        self.get_score(selected_cells) >= self.wining_points()
    }

    /// The highest score this board can reach: every row, every column and
    /// both diagonals cleared.
    pub fn max_points(&self) -> (r: u32)
        requires
            self.wf(),
        ensures
            r as int == self@.len() * 2 + 2,
    {
        (self.numbers.len() * 2 + 2) as u32
    }
}

/// With nothing called yet, every board of size at least one scores zero.
pub proof fn lemma_score_empty_history(b: Seq<Seq<u32>>, h: Seq<u32>)
    requires
        board_square(b),
        b.len() >= 1,
        h.len() == 0,
    ensures
        board_score(b, h) == 0,
{
    assert forall|i: int| 0 <= i < b.len() implies !row_cleared(b, h, i) by {
        assert(!h.contains(b[i][0]));
    }
    assert forall|j: int| 0 <= j < b.len() implies !col_cleared(b, h, j) by {
        assert(!h.contains(b[0][j]));
    }
    assert(!h.contains(b[0][0]));
    assert(!diag_main_cleared(b, h));
    assert(!h.contains(b[0][b.len() - 1 - 0]));
    assert(!diag_anti_cleared(b, h));
    lemma_counts_zero(b, h, b.len() as int);
}

proof fn lemma_counts_zero(b: Seq<Seq<u32>>, h: Seq<u32>, k: int)
    requires
        forall|i: int| 0 <= i < b.len() ==> !row_cleared(b, h, i),
        forall|j: int| 0 <= j < b.len() ==> !col_cleared(b, h, j),
        k <= b.len(),
    ensures
        rows_cleared_upto(b, h, k) == 0,
        cols_cleared_upto(b, h, k) == 0,
    decreases k,
{
    if k > 0 {
        lemma_counts_zero(b, h, k - 1);
    }
}

/// A board one of whose rows has been fully called scores at least one.
pub proof fn lemma_score_row_cleared(b: Seq<Seq<u32>>, h: Seq<u32>, i: int)
    requires
        board_square(b),
        0 <= i < b.len(),
        row_cleared(b, h, i),
    ensures
        board_score(b, h) >= 1,
{
    lemma_rows_at_least(b, h, b.len() as int, i);
    lemma_rows_cleared_upto_bounds(b, h, b.len() as int);
}

proof fn lemma_rows_at_least(b: Seq<Seq<u32>>, h: Seq<u32>, k: int, i: int)
    requires
        0 <= i < k,
        row_cleared(b, h, i),
    ensures
        rows_cleared_upto(b, h, k) >= 1,
    decreases k,
{
    lemma_rows_cleared_upto_bounds(b, h, k - 1);
    if i < k - 1 {
        lemma_rows_at_least(b, h, k - 1, i);
    }
}

/// Calling more numbers never lowers a board's score.
pub proof fn lemma_score_monotonic(b: Seq<Seq<u32>>, h1: Seq<u32>, h2: Seq<u32>)
    requires
        board_square(b),
        forall|v: u32| h1.contains(v) ==> h2.contains(v),
    ensures
        board_score(b, h1) <= board_score(b, h2),
{
    lemma_counts_monotonic(b, h1, h2, b.len() as int);
    if diag_main_cleared(b, h1) {
        assert(diag_main_cleared(b, h2));
    }
    if diag_anti_cleared(b, h1) {
        assert(diag_anti_cleared(b, h2));
    }
}

proof fn lemma_counts_monotonic(b: Seq<Seq<u32>>, h1: Seq<u32>, h2: Seq<u32>, k: int)
    requires
        forall|v: u32| h1.contains(v) ==> h2.contains(v),
    ensures
        rows_cleared_upto(b, h1, k) <= rows_cleared_upto(b, h2, k),
        cols_cleared_upto(b, h1, k) <= cols_cleared_upto(b, h2, k),
    decreases k,
{
    if k > 0 {
        lemma_counts_monotonic(b, h1, h2, k - 1);
        if row_cleared(b, h1, k - 1) {
            assert(row_cleared(b, h2, k - 1));
        }
        if col_cleared(b, h1, k - 1) {
            assert(col_cleared(b, h2, k - 1));
        }
    }
}

/// The set-up phase: ids of the players whose board has been accepted.
pub struct BoardCreation {
    pub ready: Vec<String>,
}

impl View for BoardCreation {
    type V = Seq<Seq<char>>;

    open spec fn view(&self) -> Seq<Seq<char>> {
        self.ready.deep_view()
    }
}

impl Clone for BoardCreation {
    fn clone(&self) -> (res: Self)
        ensures
            res@ == self@,
    {
        let ready = self.ready.clone();
        proof {
            assert forall|i: int| 0 <= i < self.ready@.len() implies ready@[i]@
                == self.ready@[i]@ by {
                assert(cloned::<String>(self.ready@[i], ready@[i]));
            }
            assert(ready.deep_view() =~= self.ready.deep_view());
        }
        BoardCreation { ready }
    }
}

/// The running phase: the turn-holder and the call history, oldest first.
pub struct GameRunning {
    pub turn: String,
    pub selected_numbers: Vec<SelectedCell>,
}

/// The mathematical value of a [`GameRunning`].
pub struct GameRunningView {
    pub turn: Seq<char>,
    pub selected_numbers: Seq<SelectedCellView>,
}

impl View for GameRunning {
    type V = GameRunningView;

    open spec fn view(&self) -> GameRunningView {
        GameRunningView { turn: self.turn@, selected_numbers: self.selected_numbers.deep_view() }
    }
}

impl Clone for GameRunning {
    fn clone(&self) -> (res: Self)
        ensures
            res@ == self@,
    {
        let selected_numbers = self.selected_numbers.clone();
        proof {
            assert forall|i: int| 0 <= i < self.selected_numbers@.len() implies
                selected_numbers@[i]@ == self.selected_numbers@[i]@ by {
                assert(cloned::<SelectedCell>(self.selected_numbers@[i], selected_numbers@[i]));
            }
            assert(selected_numbers.deep_view() =~= self.selected_numbers.deep_view());
        }
        GameRunning { turn: self.turn.clone(), selected_numbers }
    }
}

/// The two phases of a Bingo game.
pub enum GameState {
    BoardCreation(BoardCreation),
    GameRunning(GameRunning),
}

/// The mathematical value of a [`GameState`].
pub enum GameStateView {
    BoardCreation(Seq<Seq<char>>),
    GameRunning(GameRunningView),
}

impl View for GameState {
    type V = GameStateView;

    open spec fn view(&self) -> GameStateView {
        match self {
            GameState::BoardCreation(b) => GameStateView::BoardCreation(b@),
            GameState::GameRunning(g) => GameStateView::GameRunning(g@),
        }
    }
}

impl Clone for GameState {
    fn clone(&self) -> (res: Self)
        ensures
            res@ == self@,
    {
        match self {
            GameState::BoardCreation(b) => GameState::BoardCreation(b.clone()),
            GameState::GameRunning(g) => GameState::GameRunning(g.clone()),
        }
    }
}

impl GameState {
    /// True exactly in the running phase.
    pub fn is_game_running(&self) -> (r: bool)
        ensures
            r == (self@ is GameRunning),
    {
        matches!(self, GameState::GameRunning(..))
    }

    /// The running-phase data, if the game has started.
    pub fn as_game_running(&self) -> (r: Option<&GameRunning>)
        ensures
            r is Some <==> self@ is GameRunning,
            r is Some ==> r->Some_0@ == self@->GameRunning_0,
    {
        if let GameState::GameRunning(v) = self {
            Some(v)
        } else {
            None
        }
    }
}

/// The Bingo engine state.
pub struct Bingo {
    pub game_state: GameState,
    pub board_size: u16,
}

/// The mathematical value of a [`Bingo`].
pub struct BingoView {
    pub game_state: GameStateView,
    pub board_size: u16,
}

impl View for Bingo {
    type V = BingoView;

    open spec fn view(&self) -> BingoView {
        BingoView { game_state: self.game_state@, board_size: self.board_size }
    }
}

impl Clone for Bingo {
    fn clone(&self) -> (res: Self)
        ensures
            res@ == self@,
    {
        Bingo { game_state: self.game_state.clone(), board_size: self.board_size }
    }
}

/// A player's private per-game data: the board once submitted.
pub struct BingoPlayerData {
    pub board: Option<Board>,
}

/// The mathematical value of a [`BingoPlayerData`].
pub struct BingoPlayerDataView {
    pub board: Option<Seq<Seq<u32>>>,
}

impl View for BingoPlayerData {
    type V = BingoPlayerDataView;

    open spec fn view(&self) -> BingoPlayerDataView {
        BingoPlayerDataView { board: self.board.deep_view() }
    }
}

impl Clone for BingoPlayerData {
    fn clone(&self) -> (res: Self)
        ensures
            res@ == self@,
    {
        match &self.board {
            Some(b) => BingoPlayerData { board: Some(b.clone()) },
            None => BingoPlayerData { board: None },
        }
    }
}

/// The two moves a Bingo player can make.
pub enum BingoPlayerMessages {
    /// Submit a board during set-up.
    ReadyBoard(Board),
    /// Call a number during play.
    Move(Cell),
}

/// The parameters a Bingo game is started with.
pub struct BingoStart {
    pub board_size: u16,
}

/// The board of a roster entry, if it carries Bingo data and has one.
pub open spec fn player_board(p: GamePlayerView) -> Option<Seq<Seq<u32>>> {
    match p.data {
        PlayerGameDataView::BingoPlayerData(d) => d.board,
        _ => None,
    }
}

/// A well-formed Bingo roster: every entry carries Bingo data, every
/// submitted board is well formed, and the roster is small enough for
/// index arithmetic.
pub open spec fn bingo_players_wf(players: Seq<GamePlayerView>) -> bool {
    &&& players.len() <= 0x7FFF_FFFF
    &&& (forall|k: int| 0 <= k < players.len() ==> (#[trigger] players[k]).data
        is BingoPlayerData)
    &&& (forall|k: int|
        0 <= k < players.len() && player_board(#[trigger] players[k]) is Some ==> board_wf(
            player_board(players[k])->Some_0,
        ))
}

/// A well-formed board value: square, and small enough for its line count
/// to fit the score type.
pub open spec fn board_wf(b: Seq<Seq<u32>>) -> bool {
    board_square(b) && b.len() <= 0xFFFF
}

/// Whether the entry may take the next turn: connected, board submitted,
/// and the board not yet complete under history `h`.
pub open spec fn spec_eligible(p: GamePlayerView, h: Seq<u32>) -> bool {
    &&& p.send_channel is Some
    &&& player_board(p) is Some
    &&& board_score(player_board(p)->Some_0, h) < player_board(p)->Some_0.len()
}

/// The id of the first eligible entry at cyclic distance `d` or more from
/// `pos`, scanning at most one full cycle.
pub open spec fn first_eligible_from(
    players: Seq<GamePlayerView>,
    pos: int,
    d: int,
    h: Seq<u32>,
) -> Option<Seq<char>>
    decreases players.len() + 1 - d,
{
    if d < 1 || d > players.len() {
        None
    } else {
        let q = players[(pos + d) % (players.len() as int)];
        if spec_eligible(q, h) {
            Some(q.player.id)
        } else {
            first_eligible_from(players, pos, d + 1, h)
        }
    }
}

/// A returned id always names an eligible roster entry.
pub proof fn lemma_first_eligible_is_eligible(
    players: Seq<GamePlayerView>,
    pos: int,
    d: int,
    h: Seq<u32>,
)
    requires
        0 <= pos < players.len(),
        first_eligible_from(players, pos, d, h) is Some,
    ensures
        exists|k: int|
            0 <= k < players.len() && (#[trigger] players[k]).player.id == first_eligible_from(
                players,
                pos,
                d,
                h,
            )->Some_0 && spec_eligible(players[k], h),
    decreases players.len() + 1 - d,
{
    let q = players[(pos + d) % (players.len() as int)];
    if 1 <= d <= players.len() && spec_eligible(q, h) {
        assert(0 <= (pos + d) % (players.len() as int) < players.len());
    } else {
        lemma_first_eligible_is_eligible(players, pos, d + 1, h);
    }
}

/// The next turn-holder the engine would pick: the first connected,
/// not-yet-complete board owner after the current holder in roster order,
/// cyclically; none if the holder is unknown or nobody is eligible.
pub open spec fn spec_next_turn(g: BingoView, players: Seq<GamePlayerView>) -> Option<Seq<char>> {
    match g.game_state {
        GameStateView::GameRunning(run) => {
            let pos = game_index_of(players, run.turn);
            if pos < 0 {
                None
            } else {
                first_eligible_from(players, pos, 1, called_of(run.selected_numbers))
            }
        },
        _ => None,
    }
}

/// Whether the entry may take the next turn, executably.
fn player_eligible(p: &GamePlayer, selected: &[SelectedCell]) -> (r: bool)
    requires
        player_board(p@) is Some ==> board_wf(player_board(p@)->Some_0),
    ensures
        r == spec_eligible(p@, called_of(selected.deep_view())),
{
    if p.send_channel.is_none() {
        return false;
    }
    match &p.data {
        crate::games::PlayerGameData::BingoPlayerData(d) => match &d.board {
            Some(b) => !b.has_completed(selected),
            None => false,
        },
        _ => false,
    }
}

impl Bingo {
    /// True once every board is in and play has begun.
    pub fn is_game_running(&self) -> (r: bool)
        ensures
            r == (self@.game_state is GameRunning),
    {
        self.game_state.is_game_running()
    }

    /// True exactly when play has begun and it is this player's turn.
    pub fn can_change_turn(&self, player_id: &String) -> (r: bool)
        ensures
            r == (self@.game_state is GameRunning && self@.game_state->GameRunning_0.turn
                == player_id@),
    {
        match &self.game_state {
            GameState::BoardCreation(_) => false,
            GameState::GameRunning(data) => data.turn == *player_id,
        }
    }

    /// Reassigns the turn unconditionally while play runs.
    pub fn change_turn(&mut self, player_id: &String)
        ensures
            final(self)@.board_size == old(self)@.board_size,
            old(self)@.game_state is BoardCreation ==> final(self)@ == old(self)@,
            old(self)@.game_state is GameRunning ==> final(self)@.game_state is GameRunning
                && final(self)@.game_state->GameRunning_0.turn == player_id@
                && final(self)@.game_state->GameRunning_0.selected_numbers == old(
                self,
            )@.game_state->GameRunning_0.selected_numbers,
    {
        match &mut self.game_state {
            GameState::BoardCreation(_) => {},
            GameState::GameRunning(data) => data.turn = player_id.clone(),
        }
    }

    /// The next turn-holder, as [`spec_next_turn`] describes.
    #[verifier::loop_isolation(false)]
    pub fn get_next_turn_player(&self, players: &Vec<GamePlayer>) -> (r: Option<String>)
        requires
            bingo_players_wf(players.deep_view()),
        ensures
            r.deep_view() == spec_next_turn(self@, players.deep_view()),
    {
        let ghost ps = players.deep_view();
        let run = match &self.game_state {
            GameState::GameRunning(run) => run,
            GameState::BoardCreation(_) => {
                return None;
            },
        };
        let ghost h = called_of(run.selected_numbers.deep_view());
        let pos = match find_game_player(players, &run.turn) {
            Some(pos) => pos,
            None => {
                proof {
                    lemma_game_index_from_bounds(ps, run.turn@, 0);
                }
                return None;
            },
        };
        proof {
            lemma_game_index_from_bounds(ps, run.turn@, 0);
        }
        let n = players.len();
        let mut d: usize = 1;
        while d <= n
            invariant
                1 <= d <= n + 1,
                n == ps.len(),
                0 <= pos < n,
                n <= 0x7FFF_FFFF,
                ps == players.deep_view(),
                bingo_players_wf(ps),
                h == called_of(run.selected_numbers.deep_view()),
                first_eligible_from(ps, pos as int, 1, h) == first_eligible_from(
                    ps,
                    pos as int,
                    d as int,
                    h,
                ),
            decreases n + 1 - d,
        {
            let idx = (pos + d) % n;
            proof {
                assert(idx as int == (pos as int + d as int) % (ps.len() as int));
                assert(0 <= idx < n);
            }
            if player_eligible(&players[idx], selected_slice_of(run)) {
                proof {
                    assert(players@[idx as int]@ == ps[idx as int]);
                    assert(spec_eligible(ps[idx as int], h));
                    assert(first_eligible_from(ps, pos as int, d as int, h) == Some(
                        ps[idx as int].player.id,
                    ));
                }
                let id = players[idx].player.id.clone();
                proof {
                    assert(id@ == ps[idx as int].player.id);
                    assert(Some(id).deep_view() == first_eligible_from(ps, pos as int, 1, h));
                }
                return Some(id);
            }
            proof {
                assert(players@[idx as int]@ == ps[idx as int]);
                assert(!spec_eligible(ps[idx as int], h));
            }
            d += 1;
        }
        proof {
            assert(first_eligible_from(ps, pos as int, d as int, h) is None);
        }
        None
    }
}

/// The call history of a running game, as a slice.
fn selected_slice_of(run: &GameRunning) -> (r: &[SelectedCell])
    ensures
        r.deep_view() == run.selected_numbers.deep_view(),
{
    vec_as_slice(&run.selected_numbers)
}

/// A vector viewed as a slice.
fn vec_as_slice(v: &Vec<SelectedCell>) -> (r: &[SelectedCell])
    ensures
        r.deep_view() == v.deep_view(),
        r@ == v@,
{
    let s = v.as_slice();
    proof {
        assert(s.deep_view() =~= v.deep_view());
    }
    s
}

/// The clamped score of a player's board on the history prefix of length
/// `l`: the raw score capped at `n`, zero without a board.
pub open spec fn spec_prefix_score(
    p: GamePlayerView,
    hist: Seq<SelectedCellView>,
    n: int,
    l: int,
) -> int {
    match player_board(p) {
        Some(b) => {
            let sc = board_score(b, called_of(hist.subrange(0, l)));
            if sc > n {
                n
            } else if sc < 0 {
                0
            } else {
                sc
            }
        },
        None => 0,
    }
}

/// The best clamped score over the first `l` history prefixes, paired with
/// the earliest prefix index that reached it.
pub open spec fn spec_best_upto(
    p: GamePlayerView,
    hist: Seq<SelectedCellView>,
    n: int,
    l: int,
) -> (int, int)
    decreases l,
{
    if l <= 0 {
        (0, 0)
    } else {
        let prev = spec_best_upto(p, hist, n, l - 1);
        let sc = spec_prefix_score(p, hist, n, l);
        if prev.0 < sc {
            (sc, l - 1)
        } else {
            prev
        }
    }
}

proof fn lemma_best_bounds(p: GamePlayerView, hist: Seq<SelectedCellView>, n: int, l: int)
    requires
        n >= 0,
        l >= 0,
    ensures
        0 <= spec_best_upto(p, hist, n, l).0 <= n,
        0 <= spec_best_upto(p, hist, n, l).1 <= (if l > 0 { l - 1 } else { 0 }),
    decreases l,
{
    if l > 0 {
        lemma_best_bounds(p, hist, n, l - 1);
    }
}

/// The comparison keys the Bingo leaderboard is built from: each player's
/// best clamped score and the earliest prefix that reached it.
pub open spec fn bingo_entries(
    players: Seq<GamePlayerView>,
    hist: Seq<SelectedCellView>,
    n: int,
) -> Seq<ScoreEntry> {
    Seq::new(
        players.len(),
        |k: int|
            {
                let best = spec_best_upto(players[k], hist, n, hist.len() as int);
                ScoreEntry { score: best.0 as u64, reached: best.1 as u64, idx: k as usize }
            },
    )
}

/// The Bingo leaderboard: empty during set-up; once play has begun,
/// players rank by best score (descending), ties broken by who reached it
/// earlier, equal keys sharing a dense rank.
pub open spec fn spec_rankings(g: BingoView, players: Seq<GamePlayerView>) -> Seq<RankView> {
    match g.game_state {
        GameStateView::GameRunning(run) => rank_results(
            bingo_entries(players, run.selected_numbers, g.board_size as int),
            players,
        ),
        _ => Seq::empty(),
    }
}

/// How many of the first `k` roster entries are connected and still below
/// the winning score `n` under history `h`.
pub open spec fn count_still_playing(
    players: Seq<GamePlayerView>,
    h: Seq<u32>,
    n: int,
    k: int,
) -> int
    decreases k,
{
    if k <= 0 {
        0
    } else {
        count_still_playing(players, h, n, k - 1) + if players[k - 1].send_channel is Some
            && player_board(players[k - 1]) is Some && board_score(
            player_board(players[k - 1])->Some_0,
            h,
        ) < n {
            1int
        } else {
            0int
        }
    }
}

/// When the Bingo game is over: during play, at most one connected player
/// is still below the winning score; during set-up, at most one player is
/// connected at all.
pub open spec fn spec_is_game_end(g: BingoView, players: Seq<GamePlayerView>) -> bool {
    match g.game_state {
        GameStateView::GameRunning(run) => count_still_playing(
            players,
            called_of(run.selected_numbers),
            g.board_size as int,
            players.len() as int,
        ) <= 1,
        _ => count_connected(players, players.len() as int) <= 1,
    }
}

/// A history prefix of length `l`, as a slice.
fn prefix_of(cells: &Vec<SelectedCell>, l: usize) -> (r: &[SelectedCell])
    requires
        l <= cells@.len(),
    ensures
        r.deep_view() == cells.deep_view().subrange(0, l as int),
{
    let s = vstd::slice::slice_subrange(cells.as_slice(), 0, l);
    proof {
        assert(s.deep_view() =~= cells.deep_view().subrange(0, l as int));
    }
    s
}

impl Bingo {
    /// The leaderboard, as [`spec_rankings`] describes.
    #[verifier::loop_isolation(false)]
    pub fn get_rankings(&self, players: &Vec<GamePlayer>) -> (r: Vec<Rank>)
        requires
            bingo_players_wf(players.deep_view()),
        ensures
            r.deep_view() == spec_rankings(self@, players.deep_view()),
    {
        let ghost ps = players.deep_view();
        let run = match &self.game_state {
            GameState::GameRunning(run) => run,
            GameState::BoardCreation(_) => {
                let r: Vec<Rank> = Vec::new();
                proof {
                    assert(r.deep_view() =~= Seq::<crate::data::RankView>::empty());
                }
                return r;
            },
        };
        let ghost histv = run.selected_numbers.deep_view();
        let ghost n = self.board_size as int;
        let n32: u32 = self.board_size as u32;
        let hist_len = run.selected_numbers.len();
        let mut entries: Vec<ScoreEntry> = Vec::new();
        let mut k: usize = 0;
        while k < players.len()
            invariant
                0 <= k <= ps.len(),
                entries@.len() == k,
                forall|t: int| 0 <= t < k ==> #[trigger] entries@[t] == bingo_entries(
                    ps,
                    histv,
                    n,
                )[t],
            decreases ps.len() - k,
        {
            let mut best_score: u32 = 0;
            let mut best_reached: usize = 0;
            let mut m: usize = 0;
            proof {
                lemma_best_bounds(ps[k as int], histv, n, hist_len as int);
            }
            while m < hist_len
                invariant
                    0 <= m <= hist_len,
                    0 <= k < ps.len(),
                    (best_score as int, best_reached as int) == spec_best_upto(
                        ps[k as int],
                        histv,
                        n,
                        m as int,
                    ),
                decreases hist_len - m,
            {
                let prefix = prefix_of(&run.selected_numbers, m + 1);
                let sc_raw: u32 = match &players[k].data {
                    crate::games::PlayerGameData::BingoPlayerData(d) => match &d.board {
                        Some(b) => b.get_score(prefix),
                        None => 0,
                    },
                    _ => 0,
                };
                let sc: u32 = if sc_raw > n32 {
                    n32
                } else {
                    sc_raw
                };
                proof {
                    assert(players@[k as int]@ == ps[k as int]);
                    assert(sc as int == spec_prefix_score(ps[k as int], histv, n, m as int + 1));
                }
                if best_score < sc {
                    best_score = sc;
                    best_reached = m;
                }
                m += 1;
            }
            entries.push(
                ScoreEntry { score: best_score as u64, reached: best_reached as u64, idx: k },
            );
            proof {
                assert(entries@[k as int] == bingo_entries(ps, histv, n)[k as int]);
            }
            k += 1;
        }
        proof {
            assert(entries@ =~= bingo_entries(ps, histv, n));
        }
        let r = ranks_from_entries(&entries, players);
        r
    }

    /// Whether the game is over, as [`spec_is_game_end`] describes.
    #[verifier::loop_isolation(false)]
    pub fn is_game_end(&self, players: &Vec<GamePlayer>) -> (r: bool)
        requires
            bingo_players_wf(players.deep_view()),
        ensures
            r == spec_is_game_end(self@, players.deep_view()),
    {
        let ghost ps = players.deep_view();
        match &self.game_state {
            GameState::GameRunning(run) => {
                let ghost h = called_of(run.selected_numbers.deep_view());
                let slice = vec_as_slice(&run.selected_numbers);
                let n32: u32 = self.board_size as u32;
                let mut count: usize = 0;
                let mut k: usize = 0;
                while k < players.len()
                    invariant
                        0 <= k <= ps.len(),
                        count as int == count_still_playing(
                            ps,
                            h,
                            self.board_size as int,
                            k as int,
                        ),
                        count <= k,
                    decreases ps.len() - k,
                {
                    let p = &players[k];
                    proof {
                        assert(players@[k as int]@ == ps[k as int]);
                    }
                    if p.send_channel.is_some() {
                        match &p.data {
                            crate::games::PlayerGameData::BingoPlayerData(d) => match &d.board {
                                Some(b) => {
                                    if b.get_score(slice) < n32 {
                                        count += 1;
                                    }
                                },
                                None => {},
                            },
                            _ => {},
                        }
                    }
                    k += 1;
                }
                count <= 1
            },
            GameState::BoardCreation(_) => {
                let mut count: usize = 0;
                let mut k: usize = 0;
                while k < players.len()
                    invariant
                        0 <= k <= ps.len(),
                        count as int == count_connected(ps, k as int),
                        count <= k,
                    decreases ps.len() - k,
                {
                    proof {
                        assert(players@[k as int]@ == ps[k as int]);
                    }
                    if players[k].send_channel.is_some() {
                        count += 1;
                    }
                    k += 1;
                }
                count <= 1
            },
        }
    }

    /// A fresh Bingo game in its set-up phase.
    pub fn start_game(
        data: BingoStart,
        players: &Vec<crate::data::Player>,
        player_id: &String,
    ) -> (r: Self)
        ensures
            r@.board_size == data.board_size,
            r@.game_state is BoardCreation,
            r@.game_state->BoardCreation_0 =~= Seq::<Seq<char>>::empty(),
    {
        let ready: Vec<String> = Vec::new();
        proof {
            assert(ready.deep_view() =~= Seq::<Seq<char>>::empty());
        }
        Bingo {
            board_size: data.board_size,
            game_state: GameState::BoardCreation(BoardCreation { ready }),
        }
    }

    /// A player's initial per-game data: no board yet.
    pub fn create_player_data(
        data: &BingoStart,
        players: &Vec<crate::data::Player>,
        player_id: &String,
    ) -> (r: BingoPlayerData)
        ensures
            r@.board is None,
    {
        BingoPlayerData { board: None }
    }
}

/// What a successful `ReadyBoard` from `id` with board `b` does: the
/// sender's entry now carries the board, the sender is marked ready, and
/// once everyone is ready the game begins with an empty history and some
/// roster member's id as the first turn.
pub open spec fn spec_ready_board_ok(
    g0: BingoView,
    ps0: Seq<GamePlayerView>,
    id: Seq<char>,
    b: Seq<Seq<u32>>,
    g1: BingoView,
    ps1: Seq<GamePlayerView>,
) -> bool {
    let i = game_index_of(ps0, id);
    let ready0 = g0.game_state->BoardCreation_0;
    &&& ps1 == ps0.update(
        i,
        (GamePlayerView {
            player: ps0[i].player,
            data: PlayerGameDataView::BingoPlayerData(
                (BingoPlayerDataView { board: Some(b) }),
            ),
            send_channel: ps0[i].send_channel,
        }),
    )
    &&& g1.board_size == g0.board_size
    &&& if ready0.len() + 1 == ps0.len() {
        &&& g1.game_state is GameRunning
        &&& g1.game_state->GameRunning_0.selected_numbers == Seq::<SelectedCellView>::empty()
        &&& exists|k: int|
            0 <= k < ps0.len() && g1.game_state->GameRunning_0.turn == (#[trigger] ps0[k]).player.id
    } else {
        &&& g1.game_state is BoardCreation
        &&& g1.game_state->BoardCreation_0 == ready0.push(id)
    }
}

/// What a successful `Move` of number `mov` by the turn-holder `id` does:
/// the number joins the history, the roster is untouched, and the turn
/// passes to the next eligible player, staying put when there is none.
pub open spec fn spec_move_ok(
    g0: BingoView,
    ps0: Seq<GamePlayerView>,
    id: Seq<char>,
    mov: u32,
    g1: BingoView,
    ps1: Seq<GamePlayerView>,
) -> bool {
    let sel1 = g0.game_state->GameRunning_0.selected_numbers.push(
        (SelectedCellView { cell_value: mov, selected_by: id }),
    );
    let mid = BingoView {
        game_state: GameStateView::GameRunning(
            (GameRunningView { turn: id, selected_numbers: sel1 }),
        ),
        board_size: g0.board_size,
    };
    &&& ps1 == ps0
    &&& g1.board_size == g0.board_size
    &&& g1.game_state is GameRunning
    &&& g1.game_state->GameRunning_0.selected_numbers == sel1
    &&& g1.game_state->GameRunning_0.turn == (match spec_next_turn(mid, ps0) {
        Some(t) => t,
        None => id,
    })
}

/// Everything `Bingo::handle_player_message` promises, as one predicate
/// over the states before (`g0`, `ps0`) and after (`g1`, `ps1`), the
/// sender, the message and the verdict.
pub open spec fn spec_bingo_outcome(
    g0: BingoView,
    ps0: Seq<GamePlayerView>,
    id: Seq<char>,
    message: BingoPlayerMessages,
    g1: BingoView,
    ps1: Seq<GamePlayerView>,
    r: Result<(), Error>,
) -> bool {
    &&& bingo_players_wf(ps1)
    &&& g1.board_size == g0.board_size
    &&& (r is Err ==> g1 == g0 && ps1 == ps0)
    &&& (message is ReadyBoard && g0.game_state is GameRunning ==> r is Err && r->Err_0
        == Error::GameAlreadyRunning)
    &&& (message is ReadyBoard && g0.game_state is BoardCreation
        && g0.game_state->BoardCreation_0.contains(id) ==> r is Err && r->Err_0
        == Error::BoardAlreadySet)
    &&& (message is ReadyBoard && g0.game_state is BoardCreation
        && !g0.game_state->BoardCreation_0.contains(id) && game_index_of(ps0, id) < 0 ==> r is Err
        && r->Err_0 == Error::PlayerNotFound)
    &&& (message is ReadyBoard && g0.game_state is BoardCreation
        && !g0.game_state->BoardCreation_0.contains(id) && game_index_of(ps0, id) >= 0 ==> r is Ok
        && spec_ready_board_ok(g0, ps0, id, message->ReadyBoard_0@, g1, ps1))
    &&& (message is Move && g0.game_state is BoardCreation ==> r is Err && r->Err_0
        == Error::GameNotRunning)
    &&& (message is Move && g0.game_state is GameRunning && g0.game_state->GameRunning_0.turn != id
        ==> r is Err && r->Err_0 == Error::NotYourTurn)
    &&& (message is Move && g0.game_state is GameRunning && g0.game_state->GameRunning_0.turn == id
        && called_of(g0.game_state->GameRunning_0.selected_numbers).contains(message->Move_0)
        ==> r is Err && r->Err_0 == Error::InvalidMove)
    &&& (message is Move && g0.game_state is GameRunning && g0.game_state->GameRunning_0.turn == id
        && !called_of(g0.game_state->GameRunning_0.selected_numbers).contains(message->Move_0)
        ==> r is Ok && spec_move_ok(g0, ps0, id, message->Move_0, g1, ps1))
}

impl Bingo {
    /// Handles one in-game message.
    ///
    /// During set-up, `ReadyBoard` stores the submitted board for its
    /// sender, marks them ready, and begins play with a randomly chosen
    /// starting player once everyone is ready.  During play, `Move` lets
    /// the turn-holder call a fresh number and passes the turn to the next
    /// eligible player.  Every rejected message leaves the game and the
    /// roster exactly as they were.
    #[verifier::loop_isolation(false)]
    pub fn handle_player_message(
        &mut self,
        player_id: &String,
        players: &mut Vec<GamePlayer>,
        message: BingoPlayerMessages,
    ) -> (r: Result<(), Error>)
        requires
            bingo_players_wf(old(players).deep_view()),
            message is ReadyBoard ==> board_wf(message->ReadyBoard_0@),
        ensures
            spec_bingo_outcome(
                old(self)@,
                old(players).deep_view(),
                player_id@,
                message,
                final(self)@,
                final(players).deep_view(),
                r,
            ),
    {
        let ghost ps0 = players.deep_view();
        match message {
            BingoPlayerMessages::ReadyBoard(board) => match &mut self.game_state {
                GameState::BoardCreation(board_creation) => {
                    if string_vec_contains(&board_creation.ready, player_id) {
                        return Err(Error::BoardAlreadySet);
                    }
                    let idx = match find_game_player(players, player_id) {
                        Some(idx) => idx,
                        None => {
                            return Err(Error::PlayerNotFound);
                        },
                    };
                    proof {
                        lemma_game_index_from_bounds(ps0, player_id@, 0);
                    }
                    let entry = GamePlayer {
                        player: players[idx].player.clone(),
                        data: crate::games::PlayerGameData::BingoPlayerData(
                            BingoPlayerData { board: Some(board) },
                        ),
                        send_channel: players[idx].send_channel,
                    };
                    players[idx] = entry;
                    proof {
                        assert(players.deep_view() =~= ps0.update(
                            idx as int,
                            players.deep_view()[idx as int],
                        ));
                    }
                    let ghost ready0 = board_creation.ready.deep_view();
                    board_creation.ready.push(player_id.clone());
                    proof {
                        assert(board_creation.ready.deep_view() =~= ready0.push(player_id@));
                    }
                    if board_creation.ready.len() == players.len() {
                        let start = pick_index(players.len());
                        let turn = players[start].player.id.clone();
                        proof {
                            assert(players.deep_view()[start as int].player.id == turn@);
                            assert(ps0[start as int].player.id == players.deep_view()[
                                start as int
                            ].player.id);
                        }
                        let selected_numbers: Vec<SelectedCell> = Vec::new();
                        proof {
                            assert(selected_numbers.deep_view() =~= Seq::<
                                SelectedCellView,
                            >::empty());
                        }
                        self.game_state = GameState::GameRunning(
                            GameRunning { turn, selected_numbers },
                        );
                    }
                    Ok(())
                },
                GameState::GameRunning(_) => Err(Error::GameAlreadyRunning),
            },
            BingoPlayerMessages::Move(mov) => match &mut self.game_state {
                GameState::BoardCreation(_) => Err(Error::GameNotRunning),
                GameState::GameRunning(running_data) => {
                    if running_data.turn == *player_id {
                        if slice_contains_value(
                            vec_as_slice(&running_data.selected_numbers),
                            mov,
                        ) {
                            return Err(Error::InvalidMove);
                        }
                        let ghost sel0 = running_data.selected_numbers.deep_view();
                        running_data.selected_numbers.push(
                            SelectedCell { selected_by: player_id.clone(), cell_value: mov },
                        );
                        proof {
                            assert(running_data.selected_numbers.deep_view() =~= sel0.push(
                                (SelectedCellView {
                                    cell_value: mov,
                                    selected_by: player_id@,
                                }),
                            ));
                        }
                        let next = self.get_next_turn_player(players);
                        if let Some(next_player) = next {
                            self.change_turn(&next_player);
                        }
                        Ok(())
                    } else {
                        Err(Error::NotYourTurn)
                    }
                },
            },
        }
    }
}

/// Whether the vector holds the given string.
fn string_vec_contains(v: &Vec<String>, s: &String) -> (r: bool)
    ensures
        r == v.deep_view().contains(s@),
{
    let ghost vs = v.deep_view();
    let mut i: usize = 0;
    while i < v.len()
        invariant
            0 <= i <= v@.len(),
            vs == v.deep_view(),
            forall|t: int| 0 <= t < i ==> #[trigger] vs[t] != s@,
        decreases v@.len() - i,
    {
        if v[i] == *s {
            proof {
                assert(vs[i as int] == s@);
            }
            return true;
        }
        proof {
            assert(v@[i as int]@ != s@);
        }
        i += 1;
    }
    proof {
        assert(!vs.contains(s@));
    }
    false
}

/// The game with its turn reassigned, a no-op during set-up.
pub open spec fn spec_change_turn(g: BingoView, id: Seq<char>) -> BingoView {
    match g.game_state {
        GameStateView::GameRunning(run) => BingoView {
            game_state: GameStateView::GameRunning(
                (GameRunningView { turn: id, selected_numbers: run.selected_numbers }),
            ),
            board_size: g.board_size,
        },
        _ => g,
    }
}

proof fn lemma_first_eligible_stops(
    players: Seq<GamePlayerView>,
    pos: int,
    d: int,
    e: int,
    h: Seq<u32>,
)
    requires
        0 <= pos < players.len(),
        1 <= d <= e <= players.len(),
        spec_eligible(players[(pos + e) % (players.len() as int)], h),
    ensures
        exists|dd: int|
            d <= dd <= e && first_eligible_from(players, pos, d, h) == Some(
                players[(pos + dd) % (players.len() as int)].player.id,
            ) && spec_eligible(players[#[trigger] ((pos + dd) % (players.len() as int))], h),
    decreases e - d,
{
    let n = players.len() as int;
    if spec_eligible(players[(pos + d) % n], h) {
        assert(first_eligible_from(players, pos, d, h) == Some(players[(pos + d) % n].player.id));
    } else {
        assert(d < e);
        lemma_first_eligible_stops(players, pos, d + 1, e, h);
        let dd = choose|dd: int|
            d + 1 <= dd <= e && first_eligible_from(players, pos, d + 1, h) == Some(
                players[(pos + dd) % n].player.id,
            ) && spec_eligible(players[#[trigger] ((pos + dd) % n)], h);
        assert(first_eligible_from(players, pos, d, h) == first_eligible_from(
            players,
            pos,
            d + 1,
            h,
        ));
    }
}

/// While another player is eligible, the engine never hands the turn
/// back to the current holder: the turn really advances.  `e` names the
/// cyclic distance of some other eligible player.
pub proof fn lemma_next_turn_advances(
    players: Seq<GamePlayerView>,
    pos: int,
    h: Seq<u32>,
    e: int,
)
    requires
        0 <= pos < players.len(),
        1 <= e <= players.len() - 1,
        spec_eligible(players[(pos + e) % (players.len() as int)], h),
        forall|i: int, j: int|
            0 <= i < j < players.len() ==> (#[trigger] players[i]).player.id != (
            #[trigger] players[j]).player.id,
    ensures
        first_eligible_from(players, pos, 1, h) is Some,
        first_eligible_from(players, pos, 1, h)->Some_0 != players[pos].player.id,
{
    let n = players.len() as int;
    lemma_first_eligible_stops(players, pos, 1, e, h);
    let dd = choose|dd: int|
        1 <= dd <= e && first_eligible_from(players, pos, 1, h) == Some(
            players[(pos + dd) % n].player.id,
        ) && spec_eligible(players[#[trigger] ((pos + dd) % n)], h);
    let idx = (pos + dd) % n;
    assert(idx == if pos + dd < n {
        pos + dd
    } else {
        pos + dd - n
    }) by (nonlinear_arith)
        requires
            0 <= pos < n,
            1 <= dd < n,
            idx == (pos + dd) % n,
    ;
    assert(idx != pos);
    if idx < pos {
        assert(players[idx].player.id != players[pos].player.id);
    } else {
        assert(players[pos].player.id != players[idx].player.id);
    }
}

/// The scan returns the nearest eligible player: whenever it answers,
/// every roster entry strictly between the current holder and the answer,
/// in cyclic order, is ineligible.  Together with
/// [`lemma_first_eligible_is_eligible`] this pins the turn order: repeated
/// turns walk the eligible players in roster order, skipping nobody.
pub proof fn lemma_first_eligible_nearest(
    players: Seq<GamePlayerView>,
    pos: int,
    d: int,
    h: Seq<u32>,
)
    requires
        0 <= pos < players.len(),
        1 <= d,
        first_eligible_from(players, pos, d, h) is Some,
    ensures
        exists|dd: int|
            d <= dd <= players.len() && first_eligible_from(players, pos, d, h) == Some(
                players[#[trigger] ((pos + dd) % (players.len() as int))].player.id,
            ) && spec_eligible(players[(pos + dd) % (players.len() as int)], h) && (forall|t: int|
                d <= t < dd ==> !spec_eligible(
                    players[#[trigger] ((pos + t) % (players.len() as int))],
                    h,
                )),
    decreases players.len() + 1 - d,
{
    let n = players.len() as int;
    if d <= n && spec_eligible(players[(pos + d) % n], h) {
        assert(first_eligible_from(players, pos, d, h) == Some(players[(pos + d) % n].player.id));
    } else {
        assert(d <= n);
        lemma_first_eligible_nearest(players, pos, d + 1, h);
        let dd = choose|dd: int|
            d + 1 <= dd <= n && first_eligible_from(players, pos, d + 1, h) == Some(
                players[#[trigger] ((pos + dd) % n)].player.id,
            ) && spec_eligible(players[(pos + dd) % n], h) && (forall|t: int|
                d + 1 <= t < dd ==> !spec_eligible(players[#[trigger] ((pos + t) % n)], h));
        assert(first_eligible_from(players, pos, d, h) == first_eligible_from(
            players,
            pos,
            d + 1,
            h,
        ));
        assert(!spec_eligible(players[(pos + d) % n], h));
        assert forall|t: int| d <= t < dd implies !spec_eligible(
            players[#[trigger] ((pos + t) % n)],
            h,
        ) by {
            if t > d {
                assert(!spec_eligible(players[(pos + t) % n], h));
            }
        }
    }
}

} // verus!
