//! The Boxes engine: an edge-claiming grid game.
//!
//! The board is a grid of `board_height` x `board_width` boxes.  Players
//! take turns claiming free edges; a box belongs to the player whose edge
//! completed it (the claimed edge with the highest move number among its
//! four sides).  Completing a box keeps the turn; any other claim passes
//! it.  The game ends when every box is owned or at most one player is
//! still connected.

use vstd::prelude::*;

use crate::data::{PlayerView, Rank, RankView};
use crate::games::PlayerGameDataView;
use crate::logic::{GamePlayer, GamePlayerView};
use crate::ranking::{rank_results, ranks_from_entries, ScoreEntry};
use crate::utils::pick_index;
use crate::Error;

verus! {

/// An edge some player has claimed.
pub struct Occupied {
    pub mov_no: u32,
    pub occupied_by: String,
    pub id: u32,
}

impl Clone for Occupied {
    fn clone(&self) -> (res: Self)
        ensures
            res@ == self@,
    {
        Occupied { mov_no: self.mov_no, occupied_by: self.occupied_by.clone(), id: self.id }
    }
}

/// An edge still free to claim.
#[derive(Clone, Copy, Debug, PartialEq, Eq, Structural)]
pub struct Unoccupied {
    pub id: u32,
}

/// One edge of the grid.
pub enum EdgeType {
    Occupied(Occupied),
    Unoccupied(Unoccupied),
}

/// The mathematical value of an [`EdgeType`].
pub enum EdgeTypeView {
    Occupied { mov_no: u32, occupied_by: Seq<char>, id: u32 },
    Unoccupied { id: u32 },
}

impl EdgeTypeView {
    /// The id of the edge, whichever state it is in.
    pub open spec fn edge_id(self) -> u32 {
        match self {
            EdgeTypeView::Occupied { id, .. } => id,
            EdgeTypeView::Unoccupied { id } => id,
        }
    }

    /// The move number of the edge: zero while unclaimed.
    pub open spec fn edge_mov_no(self) -> u32 {
        match self {
            EdgeTypeView::Occupied { mov_no, .. } => mov_no,
            EdgeTypeView::Unoccupied { .. } => 0,
        }
    }
}

impl View for Occupied {
    type V = EdgeTypeView;

    open spec fn view(&self) -> EdgeTypeView {
        EdgeTypeView::Occupied {
            mov_no: self.mov_no,
            occupied_by: self.occupied_by@,
            id: self.id,
        }
    }
}

impl View for EdgeType {
    type V = EdgeTypeView;

    open spec fn view(&self) -> EdgeTypeView {
        match self {
            EdgeType::Occupied(o) => o@,
            EdgeType::Unoccupied(u) => EdgeTypeView::Unoccupied { id: u.id },
        }
    }
}

impl DeepView for EdgeType {
    type V = EdgeTypeView;

    open spec fn deep_view(&self) -> EdgeTypeView {
        self.view()
    }
}

impl Clone for EdgeType {
    fn clone(&self) -> (res: Self)
        ensures
            res@ == self@,
    {
        match self {
            EdgeType::Occupied(o) => EdgeType::Occupied(o.clone()),
            EdgeType::Unoccupied(u) => EdgeType::Unoccupied(*u),
        }
    }
}

impl EdgeType {
    /// True while the edge is free.
    pub fn is_unoccupied(&self) -> (r: bool)
        ensures
            r == (self@ is Unoccupied),
    {
        matches!(self, Self::Unoccupied(..))
    }

    /// True once the edge is claimed.
    pub fn is_occupied(&self) -> (r: bool)
        ensures
            r == (self@ is Occupied),
    {
        matches!(self, Self::Occupied(..))
    }

    /// The claim data, if the edge is claimed.
    pub fn as_occupied(&self) -> (r: Option<&Occupied>)
        ensures
            r is Some <==> self@ is Occupied,
            r is Some ==> r->Some_0@ == self@,
    {
        if let Self::Occupied(v) = self {
            Some(v)
        } else {
            None
        }
    }

    /// The free-edge data, if the edge is free.
    pub fn as_unoccupied(&self) -> (r: Option<&Unoccupied>)
        ensures
            r is Some <==> self@ is Unoccupied,
            r is Some ==> r->Some_0.id == self@->Unoccupied_id,
    {
        if let Self::Unoccupied(v) = self {
            Some(v)
        } else {
            None
        }
    }

    /// The edge's id, whichever state it is in.
    pub fn edge_id(&self) -> (r: u32)
        ensures
            r == self@.edge_id(),
    {
        match self {
            EdgeType::Occupied(o) => o.id,
            EdgeType::Unoccupied(u) => u.id,
        }
    }
}

/// A rectangular arrangement of edges, stored row-major.
pub struct Grid {
    pub rows: usize,
    pub cols: usize,
    pub edges: Vec<EdgeType>,
}

/// The mathematical value of a [`Grid`].
pub struct GridView {
    pub rows: usize,
    pub cols: usize,
    pub edges: Seq<EdgeTypeView>,
}

impl GridView {
    /// A well-shaped grid: the flat edge list covers exactly the grid and
    /// the dimensions stay small enough for index arithmetic.
    pub open spec fn wf(self) -> bool {
        &&& self.edges.len() == self.rows * self.cols
        &&& self.rows <= 0x8000
        &&& self.cols <= 0x8000
    }

    /// The edge at row `i`, column `j`.
    pub open spec fn at(self, i: int, j: int) -> EdgeTypeView {
        self.edges[i * self.cols + j]
    }
}

impl View for Grid {
    type V = GridView;

    open spec fn view(&self) -> GridView {
        GridView { rows: self.rows, cols: self.cols, edges: self.edges.deep_view() }
    }
}

impl Clone for Grid {
    fn clone(&self) -> (res: Self)
        ensures
            res@ == self@,
    {
        let edges = self.edges.clone();
        proof {
            assert forall|i: int| 0 <= i < self.edges@.len() implies edges@[i]@
                == self.edges@[i]@ by {
                assert(cloned::<EdgeType>(self.edges@[i], edges@[i]));
            }
            assert(edges.deep_view() =~= self.edges.deep_view());
        }
        Grid { rows: self.rows, cols: self.cols, edges }
    }
}

impl Grid {
    /// A fresh grid of free edges whose ids count row-major from
    /// `first_id`.
    pub fn new_unoccupied(rows: usize, cols: usize, first_id: u32) -> (r: Grid)
        requires
            rows <= 0x8000,
            cols <= 0x8000,
            first_id as int + rows * cols <= u32::MAX,
        ensures
            r@.wf(),
            r@.rows == rows,
            r@.cols == cols,
            forall|k: int| 0 <= k < rows * cols ==> #[trigger] r@.edges[k]
                == (EdgeTypeView::Unoccupied { id: (first_id + k) as u32 }),
    {
        proof {
            assert(rows * cols <= 0x8000 * 0x8000) by (nonlinear_arith)
                requires
                    rows <= 0x8000,
                    cols <= 0x8000,
            ;
        }
        let total: usize = rows * cols;
        let mut edges: Vec<EdgeType> = Vec::new();
        let mut k: usize = 0;
        while k < total
            invariant
                0 <= k <= total,
                total == rows * cols,
                first_id as int + total <= u32::MAX,
                edges@.len() == k,
                forall|t: int| 0 <= t < k ==> #[trigger] edges.deep_view()[t]
                    == (EdgeTypeView::Unoccupied { id: (first_id + t) as u32 }),
            decreases total - k,
        {
            let e = EdgeType::Unoccupied(Unoccupied { id: first_id + (k as u32) });
            let ghost pre = edges.deep_view();
            edges.push(e);
            proof {
                assert(edges.deep_view() =~= pre.push(e@));
            }
            k += 1;
        }
        Grid { rows, cols, edges }
    }

    /// The edge at row `i`, column `j`.
    pub fn get(&self, i: usize, j: usize) -> (r: &EdgeType)
        requires
            self@.wf(),
            i < self@.rows,
            j < self@.cols,
        ensures
            r@ == self@.at(i as int, j as int),
    {
        proof {
            assert(i * self.cols + j < self.rows * self.cols && self.rows * self.cols <= 0x8000
                * 0x8000) by (nonlinear_arith)
                requires
                    i < self.rows,
                    j < self.cols,
                    self.rows <= 0x8000,
                    self.cols <= 0x8000,
            ;
        }
        &self.edges[i * self.cols + j]
    }

    /// The edge at flat position `k`.
    pub fn get_flat(&self, k: usize) -> (r: &EdgeType)
        requires
            k < self@.edges.len(),
        ensures
            r@ == self@.edges[k as int],
    {
        &self.edges[k]
    }

    /// Replaces the edge at flat position `k`.
    pub fn set_flat(&mut self, k: usize, e: EdgeType)
        requires
            k < old(self)@.edges.len(),
        ensures
            final(self)@.rows == old(self)@.rows,
            final(self)@.cols == old(self)@.cols,
            final(self)@.edges == old(self)@.edges.update(k as int, e@),
    {
        self.edges[k] = e;
        proof {
            assert(self.edges.deep_view() =~= old(self).edges.deep_view().update(k as int, e@));
        }
    }
}

/// The Boxes engine state.
pub struct Boxes {
    pub horizontal_edges: Grid,
    pub vertical_edges: Grid,
    pub turn: String,
}

/// The mathematical value of a [`Boxes`].
pub struct BoxesView {
    pub horizontal_edges: GridView,
    pub vertical_edges: GridView,
    pub turn: Seq<char>,
}

impl View for Boxes {
    type V = BoxesView;

    open spec fn view(&self) -> BoxesView {
        BoxesView {
            horizontal_edges: self.horizontal_edges@,
            vertical_edges: self.vertical_edges@,
            turn: self.turn@,
        }
    }
}

impl Clone for Boxes {
    fn clone(&self) -> (res: Self)
        ensures
            res@ == self@,
    {
        Boxes {
            horizontal_edges: self.horizontal_edges.clone(),
            vertical_edges: self.vertical_edges.clone(),
            turn: self.turn.clone(),
        }
    }
}

/// A colour assigned to a player, as one byte per channel.
#[derive(Clone, Copy, Debug, PartialEq, Eq, Structural)]
pub struct PlayerColor {
    pub red: u8,
    pub green: u8,
    pub blue: u8,
}

/// A player's per-game data: the colour their boxes are drawn in.
#[derive(Clone, Copy, Debug, PartialEq, Eq, Structural)]
pub struct BoxesPlayerData {
    pub color: PlayerColor,
}

impl View for BoxesPlayerData {
    type V = BoxesPlayerData;

    open spec fn view(&self) -> BoxesPlayerData {
        *self
    }
}

/// The single move a Boxes player can make.
pub struct Move {
    pub edge_id: u32,
}

/// The moves a Boxes player can send.
pub enum BoxesPlayerMessages {
    Move(Move),
}

/// The parameters a Boxes game is started with.
pub struct BoxesStart {
    pub board_width: u32,
    pub board_height: u32,
}

/// The owner of one box, if any.
pub struct Cell {
    pub occupied_by: Option<String>,
}

/// The mathematical value of a [`Cell`].
pub struct CellView {
    pub occupied_by: Option<Seq<char>>,
}

impl View for Cell {
    type V = CellView;

    open spec fn view(&self) -> CellView {
        CellView { occupied_by: self.occupied_by.deep_view() }
    }
}

impl DeepView for Cell {
    type V = CellView;

    open spec fn deep_view(&self) -> CellView {
        self.view()
    }
}

/// A well-formed Boxes roster: every entry carries Boxes data and the
/// roster is small enough for index arithmetic.
pub open spec fn boxes_players_wf(players: Seq<GamePlayerView>) -> bool {
    &&& players.len() <= 0x7FFF_FFFF
    &&& (forall|k: int| 0 <= k < players.len() ==> (#[trigger] players[k]).data
        is BoxesPlayerData)
}

impl BoxesView {
    /// A well-formed board: both grids well shaped, and sized so that a
    /// board of `rows()` x `cols()` boxes has `rows()` x `cols() + 1`
    /// left-right edges and `rows() + 1` x `cols()` top-bottom edges.
    pub open spec fn wf(self) -> bool {
        &&& self.horizontal_edges.wf()
        &&& self.vertical_edges.wf()
        &&& self.horizontal_edges.cols == self.vertical_edges.cols + 1
        &&& self.vertical_edges.rows == self.horizontal_edges.rows + 1
    }

    /// The number of box rows.
    pub open spec fn rows(self) -> int {
        self.horizontal_edges.rows as int
    }

    /// The number of box columns.
    pub open spec fn cols(self) -> int {
        self.vertical_edges.cols as int
    }

    /// Of two edges, the one that was claimed later; the second on ties.
    pub open spec fn later_edge(a: EdgeTypeView, b: EdgeTypeView) -> EdgeTypeView {
        if b.edge_mov_no() >= a.edge_mov_no() {
            b
        } else {
            a
        }
    }

    /// The edge whose claim completed box `(i, j)`, scanning its left,
    /// right, top and bottom sides and preferring the latest claim.
    pub open spec fn winning_edge(self, i: int, j: int) -> EdgeTypeView {
        let l = self.horizontal_edges.at(i, j);
        let r = self.horizontal_edges.at(i, j + 1);
        let t = self.vertical_edges.at(i, j);
        let b = self.vertical_edges.at(i + 1, j);
        Self::later_edge(Self::later_edge(Self::later_edge(l, r), t), b)
    }

    /// The owner of box `(i, j)`: the winning edge's claimant once all
    /// four sides are claimed, nobody before that.
    pub open spec fn cell_owner(self, i: int, j: int) -> Option<Seq<char>> {
        let l = self.horizontal_edges.at(i, j);
        let r = self.horizontal_edges.at(i, j + 1);
        let t = self.vertical_edges.at(i, j);
        let b = self.vertical_edges.at(i + 1, j);
        if l is Occupied && r is Occupied && t is Occupied && b is Occupied {
            Some(self.winning_edge(i, j)->Occupied_occupied_by)
        } else {
            None
        }
    }

    /// How many boxes of row `i`, among the first `j`, have an owner.
    pub open spec fn count_owned_row(self, i: int, j: int) -> int
        decreases j,
    {
        if j <= 0 {
            0
        } else {
            self.count_owned_row(i, j - 1) + if self.cell_owner(i, j - 1) is Some {
                1int
            } else {
                0int
            }
        }
    }

    /// How many boxes of the first `i` rows have an owner.
    pub open spec fn count_owned(self, i: int) -> int
        decreases i,
    {
        if i <= 0 {
            0
        } else {
            self.count_owned(i - 1) + self.count_owned_row(i - 1, self.cols())
        }
    }

    /// How many boxes of row `i`, among the first `j`, the player owns.
    pub open spec fn count_player_row(self, id: Seq<char>, i: int, j: int) -> int
        decreases j,
    {
        if j <= 0 {
            0
        } else {
            self.count_player_row(id, i, j - 1) + if self.cell_owner(i, j - 1) == Some(id) {
                1int
            } else {
                0int
            }
        }
    }

    /// How many boxes of the first `i` rows the player owns.
    pub open spec fn count_player(self, id: Seq<char>, i: int) -> int
        decreases i,
    {
        if i <= 0 {
            0
        } else {
            self.count_player(id, i - 1) + self.count_player_row(id, i - 1, self.cols())
        }
    }

    /// Whether every box has an owner.
    pub open spec fn all_owned(self) -> bool {
        forall|i: int, j: int|
            0 <= i < self.rows() && 0 <= j < self.cols() ==> (#[trigger] self.cell_owner(
                i,
                j,
            )) is Some
    }
}

proof fn lemma_count_owned_row_bounds(b: BoxesView, i: int, j: int)
    requires
        j >= 0,
    ensures
        0 <= b.count_owned_row(i, j) <= j,
    decreases j,
{
    if j > 0 {
        lemma_count_owned_row_bounds(b, i, j - 1);
    }
}

proof fn lemma_count_player_row_bounds(b: BoxesView, id: Seq<char>, i: int, j: int)
    requires
        j >= 0,
    ensures
        0 <= b.count_player_row(id, i, j) <= j,
    decreases j,
{
    if j > 0 {
        lemma_count_player_row_bounds(b, id, i, j - 1);
    }
}

proof fn lemma_count_owned_bounds(b: BoxesView, i: int)
    requires
        i >= 0,
        b.cols() >= 0,
    ensures
        0 <= b.count_owned(i) <= i * b.cols(),
    decreases i,
{
    if i > 0 {
        lemma_count_owned_bounds(b, i - 1);
        lemma_count_owned_row_bounds(b, i - 1, b.cols());
        assert((i - 1) * b.cols() + b.cols() == i * b.cols()) by (nonlinear_arith);
    }
}

proof fn lemma_count_player_bounds(b: BoxesView, id: Seq<char>, i: int)
    requires
        i >= 0,
        b.cols() >= 0,
    ensures
        0 <= b.count_player(id, i) <= i * b.cols(),
    decreases i,
{
    if i > 0 {
        lemma_count_player_bounds(b, id, i - 1);
        lemma_count_player_row_bounds(b, id, i - 1, b.cols());
        assert((i - 1) * b.cols() + b.cols() == i * b.cols()) by (nonlinear_arith);
    }
}

impl Boxes {
    /// The owner of each box, row by row.
    #[verifier::loop_isolation(false)]
    pub fn get_cells(&self) -> (r: Vec<Vec<Cell>>)
        requires
            self@.wf(),
        ensures
            r.deep_view().len() == self@.rows(),
            forall|i: int| 0 <= i < self@.rows() ==> (#[trigger] r.deep_view()[i]).len()
                == self@.cols(),
            forall|i: int, j: int|
                0 <= i < self@.rows() && 0 <= j < self@.cols()
                    ==> (#[trigger] r.deep_view()[i][j]).occupied_by == self@.cell_owner(i, j),
    {
        let ghost b = self@;
        let rows = self.horizontal_edges.rows;
        let cols = self.vertical_edges.cols;
        let mut out: Vec<Vec<Cell>> = Vec::new();
        let mut i: usize = 0;
        while i < rows
            invariant
                0 <= i <= rows,
                out@.len() == i,
                forall|t: int| 0 <= t < i ==> (#[trigger] out.deep_view()[t]).len() == b.cols(),
                forall|t: int, u: int|
                    0 <= t < i && 0 <= u < b.cols() ==> (#[trigger] out.deep_view()[t][u]).occupied_by
                        == b.cell_owner(t, u),
            decreases rows - i,
        {
            let mut row: Vec<Cell> = Vec::new();
            let mut j: usize = 0;
            while j < cols
                invariant
                    0 <= i < rows,
                    0 <= j <= cols,
                    row@.len() == j,
                    forall|u: int| 0 <= u < j ==> (#[trigger] row.deep_view()[u]).occupied_by
                        == b.cell_owner(i as int, u),
                decreases cols - j,
            {
                let left = self.horizontal_edges.get(i, j);
                let right = self.horizontal_edges.get(i, j + 1);
                let top = self.vertical_edges.get(i, j);
                let bottom = self.vertical_edges.get(i + 1, j);
                let cell: Cell;
                if left.is_occupied() && right.is_occupied() && top.is_occupied()
                    && bottom.is_occupied() {
                    let mut best = left;
                    if right.mov_no_or_zero() >= best.mov_no_or_zero() {
                        best = right;
                    }
                    if top.mov_no_or_zero() >= best.mov_no_or_zero() {
                        best = top;
                    }
                    if bottom.mov_no_or_zero() >= best.mov_no_or_zero() {
                        best = bottom;
                    }
                    proof {
                        assert(best@ == b.winning_edge(i as int, j as int));
                    }
                    let owner = match best {
                        EdgeType::Occupied(o) => o.occupied_by.clone(),
                        EdgeType::Unoccupied(_) => {
                            proof {
                                assert(false);
                            }
                            String::new()
                        },
                    };
                    cell = Cell { occupied_by: Some(owner) };
                } else {
                    cell = Cell { occupied_by: None };
                }
                let ghost pre = row.deep_view();
                row.push(cell);
                proof {
                    assert(row.deep_view() =~= pre.push(row@[j as int]@));
                }
                j += 1;
            }
            let ghost preo = out.deep_view();
            out.push(row);
            proof {
                assert(out.deep_view() =~= preo.push(out@[i as int].deep_view()));
            }
            i += 1;
        }
        out
    }

    /// How many boxes the player owns.
    #[verifier::loop_isolation(false)]
    pub fn get_score(&self, player_id: &String) -> (r: u32)
        requires
            self@.wf(),
        ensures
            r as int == self@.count_player(player_id@, self@.rows()),
    {
        let ghost b = self@;
        let cells = self.get_cells();
        let rows = self.horizontal_edges.rows;
        let cols = self.vertical_edges.cols;
        proof {
            lemma_count_player_bounds(b, player_id@, b.rows());
            assert(b.rows() * b.cols() <= 0x8000 * 0x8000) by (nonlinear_arith)
                requires
                    0 <= b.rows() <= 0x8000,
                    0 <= b.cols() <= 0x8000,
            ;
        }
        let mut count: u32 = 0;
        let mut i: usize = 0;
        while i < rows
            invariant
                0 <= i <= rows,
                count as int == b.count_player(player_id@, i as int),
                count as int <= i * b.cols(),
            decreases rows - i,
        {
            let mut j: usize = 0;
            while j < cols
                invariant
                    0 <= i < rows,
                    0 <= j <= cols,
                    count as int == b.count_player(player_id@, i as int)
                        + b.count_player_row(player_id@, i as int, j as int),
                    count as int <= i * b.cols() + j,
                decreases cols - j,
            {
                proof {
                    assert(cells.deep_view()[i as int].len() == b.cols());
                    assert(cells@[i as int]@.len() == cells.deep_view()[i as int].len());
                    assert(cells@.len() == cells.deep_view().len());
                }
                let owned = match &cells[i][j].occupied_by {
                    Some(o) => *o == *player_id,
                    None => false,
                };
                proof {
                    assert(cells@[i as int]@[j as int]@ == cells.deep_view()[i as int][j as int]);
                    assert(owned == (b.cell_owner(i as int, j as int) == Some(player_id@)));
                    lemma_count_player_bounds(b, player_id@, i as int);
                    assert(i * b.cols() + j < b.rows() * b.cols()) by (nonlinear_arith)
                        requires
                            0 <= i < b.rows(),
                            0 <= j < b.cols(),
                    ;
                }
                if owned {
                    count += 1;
                }
                j += 1;
            }
            proof {
                assert((i as int + 1) * b.cols() == i as int * b.cols() + b.cols())
                    by (nonlinear_arith);
            }
            i += 1;
        }
        count
    }

    /// True at all times: a Boxes game has no set-up phase.
    pub fn is_game_running(&self) -> (r: bool)
        ensures
            r == true,
    {
        true
    }

    /// True exactly when it is this player's turn.
    pub fn can_change_turn(&self, player_id: &String) -> (r: bool)
        ensures
            r == (self@.turn == player_id@),
    {
        self.turn == *player_id
    }

    /// Reassigns the turn unconditionally.
    pub fn change_turn(&mut self, player_id: &String)
        ensures
            final(self)@.turn == player_id@,
            final(self)@.horizontal_edges == old(self)@.horizontal_edges,
            final(self)@.vertical_edges == old(self)@.vertical_edges,
    {
        self.turn = player_id.clone();
    }

    /// The Boxes leaderboard: players rank by boxes owned, descending,
    /// equal scores sharing a dense rank.
    #[verifier::loop_isolation(false)]
    pub fn get_rankings(&self, players: &Vec<GamePlayer>) -> (r: Vec<Rank>)
        requires
            self@.wf(),
            boxes_players_wf(players.deep_view()),
        ensures
            r.deep_view() == spec_boxes_rankings(self@, players.deep_view()),
    {
        let ghost ps = players.deep_view();
        let ghost b = self@;
        let mut entries: Vec<ScoreEntry> = Vec::new();
        let mut k: usize = 0;
        while k < players.len()
            invariant
                0 <= k <= ps.len(),
                entries@.len() == k,
                forall|t: int| 0 <= t < k ==> #[trigger] entries@[t] == boxes_entries(b, ps)[t],
            decreases ps.len() - k,
        {
            let sc = self.get_score(&players[k].player.id);
            proof {
                assert(players@[k as int]@ == ps[k as int]);
            }
            entries.push(ScoreEntry { score: sc as u64, reached: 0, idx: k });
            proof {
                assert(entries@[k as int] == boxes_entries(b, ps)[k as int]);
            }
            k += 1;
        }
        proof {
            assert(entries@ =~= boxes_entries(b, ps));
        }
        ranks_from_entries(&entries, players)
    }

    /// The next turn-holder: none once every box is owned or nobody is
    /// connected; otherwise the first connected player after the current
    /// holder in cyclic roster order.
    #[verifier::loop_isolation(false)]
    pub fn get_next_turn_player(&self, players: &Vec<GamePlayer>) -> (r: Option<String>)
        requires
            self@.wf(),
            boxes_players_wf(players.deep_view()),
        ensures
            r.deep_view() == spec_boxes_next_turn(self@, players.deep_view()),
    {
        let ghost ps = players.deep_view();
        let ghost b = self@;
        if self.all_cells_owned() || self.none_connected(players) {
            return None;
        }
        let pos = match crate::logic::find_game_player(players, &self.turn) {
            Some(pos) => pos,
            None => {
                proof {
                    crate::logic::lemma_game_index_from_bounds(ps, self.turn@, 0);
                }
                return None;
            },
        };
        proof {
            crate::logic::lemma_game_index_from_bounds(ps, self.turn@, 0);
        }
        let n = players.len();
        let mut d: usize = 1;
        while d <= n
            invariant
                1 <= d <= n + 1,
                0 <= pos < n,
                first_connected_from(ps, pos as int, 1) == first_connected_from(
                    ps,
                    pos as int,
                    d as int,
                ),
            decreases n + 1 - d,
        {
            let idx = (pos + d) % n;
            proof {
                assert(idx as int == (pos as int + d as int) % (ps.len() as int));
                assert(0 <= idx < n);
                assert(players@[idx as int]@ == ps[idx as int]);
            }
            if players[idx].send_channel.is_some() {
                let id = players[idx].player.id.clone();
                proof {
                    assert(id@ == ps[idx as int].player.id);
                    assert(Some(id).deep_view() == first_connected_from(ps, pos as int, 1));
                }
                return Some(id);
            }
            d += 1;
        }
        proof {
            assert(first_connected_from(ps, pos as int, d as int) is None);
        }
        None
    }

    /// Whether every box is owned, executably.
    #[verifier::loop_isolation(false)]
    fn all_cells_owned(&self) -> (r: bool)
        requires
            self@.wf(),
        ensures
            r == self@.all_owned(),
    {
        let ghost b = self@;
        let cells = self.get_cells();
        let rows = self.horizontal_edges.rows;
        let cols = self.vertical_edges.cols;
        let mut i: usize = 0;
        while i < rows
            invariant
                0 <= i <= rows,
                forall|t: int, u: int|
                    0 <= t < i && 0 <= u < b.cols() ==> (#[trigger] b.cell_owner(t, u)) is Some,
            decreases rows - i,
        {
            let mut j: usize = 0;
            while j < cols
                invariant
                    0 <= i < rows,
                    0 <= j <= cols,
                    forall|u: int| 0 <= u < j ==> (#[trigger] b.cell_owner(i as int, u)) is Some,
                decreases cols - j,
            {
                proof {
                    assert(cells@[i as int]@[j as int]@ == cells.deep_view()[i as int][j as int]);
                }
                if cells[i][j].occupied_by.is_none() {
                    proof {
                        assert(!(b.cell_owner(i as int, j as int) is Some));
                    }
                    return false;
                }
                j += 1;
            }
            i += 1;
        }
        true
    }

    /// Whether no roster entry is connected, executably.
    #[verifier::loop_isolation(false)]
    fn none_connected(&self, players: &Vec<GamePlayer>) -> (r: bool)
        ensures
            r == (forall|k: int|
                0 <= k < players.deep_view().len() ==> (#[trigger] players.deep_view()[
                    k
                ]).send_channel is None),
    {
        let ghost ps = players.deep_view();
        let mut k: usize = 0;
        while k < players.len()
            invariant
                0 <= k <= ps.len(),
                forall|t: int| 0 <= t < k ==> (#[trigger] ps[t]).send_channel is None,
            decreases ps.len() - k,
        {
            proof {
                assert(players@[k as int]@ == ps[k as int]);
            }
            if players[k].send_channel.is_some() {
                return false;
            }
            k += 1;
        }
        true
    }

    /// The game is over when every box is owned or at most one player is
    /// still connected.
    #[verifier::loop_isolation(false)]
    pub fn is_game_end(&self, players: &Vec<GamePlayer>) -> (r: bool)
        requires
            self@.wf(),
            boxes_players_wf(players.deep_view()),
        ensures
            r == spec_boxes_is_game_end(self@, players.deep_view()),
    {
        let ghost ps = players.deep_view();
        let mut connected: usize = 0;
        let mut k: usize = 0;
        while k < players.len()
            invariant
                0 <= k <= ps.len(),
                connected as int == crate::logic::count_connected(ps, k as int),
                connected <= k,
            decreases ps.len() - k,
        {
            proof {
                assert(players@[k as int]@ == ps[k as int]);
            }
            if players[k].send_channel.is_some() {
                connected += 1;
            }
            k += 1;
        }
        connected <= 1 || self.all_cells_owned()
    }

    /// A fresh board of `board_height` x `board_width` boxes, as
    /// [`spec_boxes_started`] describes, with a random roster member as
    /// first turn-holder; an empty roster leaves the turn blank.
    ///
    /// Dimensions are capped at `0x7FFF` boxes per side so that both
    /// edge grids stay within the shape the grid type supports and every
    /// edge id fits its type.
    pub fn start_game(
        data: BoxesStart,
        players: &Vec<crate::data::Player>,
        player_id: &String,
    ) -> (r: Result<Self, Error>)
        ensures
            r is Ok <==> 1 <= data.board_width <= 0x7FFF && 1 <= data.board_height <= 0x7FFF,
            r is Err ==> r->Err_0 == Error::InvalidMove,
            r is Ok ==> spec_boxes_started(data, players.deep_view(), r->Ok_0@),
    {
        if data.board_width < 1 || data.board_width > 0x7FFF || data.board_height < 1
            || data.board_height > 0x7FFF {
            return Err(Error::InvalidMove);
        }
        let h = data.board_height as usize;
        let w = data.board_width as usize;
        proof {
            assert(h * (w + 1) <= 0x7FFF * 0x8000 && (h + 1) * w <= 0x8000 * 0x7FFF && h * (w + 1)
                + 1 + (h + 1) * w <= u32::MAX) by (nonlinear_arith)
                requires
                    1 <= h <= 0x7FFF,
                    1 <= w <= 0x7FFF,
            ;
        }
        let horizontal_edges = Grid::new_unoccupied(h, w + 1, 1);
        let first_vertical: u32 = (h * (w + 1)) as u32 + 1;
        let vertical_edges = Grid::new_unoccupied(h + 1, w, first_vertical);
        let turn: String;
        if players.len() > 0 {
            let k = pick_index(players.len());
            turn = players[k].id.clone();
            proof {
                assert(turn@ == players.deep_view()[k as int].id);
            }
        } else {
            turn = String::new();
        }
        Ok(Boxes { horizontal_edges, vertical_edges, turn })
    }

    /// A player's per-game data: an evenly spaced colour derived from
    /// their roster position.
    pub fn create_player_data(
        data: &BoxesStart,
        players: &Vec<crate::data::Player>,
        player_id: &String,
    ) -> (r: BoxesPlayerData)
        ensures
            r.color == spec_player_color(
                crate::data::player_index_of(players.deep_view(), player_id@),
                players@.len() as int,
            ),
    {
        let idx = match crate::data::find_player(players, player_id) {
            Some(i) => i,
            None => 0,
        };
        proof {
            crate::data::lemma_player_index_from_bounds(players.deep_view(), player_id@, 0);
        }
        let n = players.len();
        let hue: u32 = if n == 0 {
            0
        } else {
            (((idx as u128) * 360u128 / (n as u128)) % 360) as u32
        };
        BoxesPlayerData { color: color_from_hue(hue) }
    }
}

/// A freshly started board: well shaped for `board_height` x
/// `board_width` boxes, every edge free, the left-right edges carrying
/// ids `1 ..= h * (w + 1)` row-major and the top-bottom edges continuing
/// with `h * (w + 1) + 1 ..= h * (w + 1) + (h + 1) * w`, and the first
/// turn-holder drawn from the roster (blank when the roster is empty).
pub open spec fn spec_boxes_started(
    data: BoxesStart,
    players: Seq<PlayerView>,
    b: BoxesView,
) -> bool {
    let h = data.board_height as int;
    let w = data.board_width as int;
    &&& b.wf()
    &&& b.rows() == h
    &&& b.cols() == w
    &&& (forall|k: int|
        0 <= k < h * (w + 1) ==> #[trigger] b.horizontal_edges.edges[k]
            == (EdgeTypeView::Unoccupied { id: (k + 1) as u32 }))
    &&& (forall|k: int|
        0 <= k < (h + 1) * w ==> #[trigger] b.vertical_edges.edges[k]
            == (EdgeTypeView::Unoccupied { id: (h * (w + 1) + k + 1) as u32 }))
    &&& (players.len() == 0 ==> b.turn == Seq::<char>::empty())
    &&& (players.len() > 0 ==> exists|k: int|
        0 <= k < players.len() && b.turn == (#[trigger] players[k]).id)
}

/// The comparison keys of the Boxes leaderboard: boxes owned, higher
/// first, roster order breaking ties.
pub open spec fn boxes_entries(b: BoxesView, players: Seq<GamePlayerView>) -> Seq<ScoreEntry> {
    Seq::new(
        players.len(),
        |k: int|
            ScoreEntry {
                score: b.count_player(players[k].player.id, b.rows()) as u64,
                reached: 0,
                idx: k as usize,
            },
    )
}

/// The Boxes leaderboard, over the shared dense-ranking rule.
pub open spec fn spec_boxes_rankings(b: BoxesView, players: Seq<GamePlayerView>) -> Seq<RankView> {
    rank_results(boxes_entries(b, players), players)
}

/// The id of the first connected entry at cyclic distance `d` or more
/// from `pos`, scanning at most one full cycle.
pub open spec fn first_connected_from(players: Seq<GamePlayerView>, pos: int, d: int) -> Option<
    Seq<char>,
>
    decreases players.len() + 1 - d,
{
    if d < 1 || d > players.len() {
        None
    } else {
        let q = players[(pos + d) % (players.len() as int)];
        if q.send_channel is Some {
            Some(q.player.id)
        } else {
            first_connected_from(players, pos, d + 1)
        }
    }
}

/// The next Boxes turn-holder, as the engine picks it.
pub open spec fn spec_boxes_next_turn(b: BoxesView, players: Seq<GamePlayerView>) -> Option<
    Seq<char>,
> {
    if b.all_owned() || (forall|k: int|
        0 <= k < players.len() ==> (#[trigger] players[k]).send_channel is None) {
        None
    } else {
        let pos = crate::logic::game_index_of(players, b.turn);
        if pos < 0 {
            None
        } else {
            first_connected_from(players, pos, 1)
        }
    }
}

/// When the Boxes game is over: every box is owned, or at most one
/// player is still connected.
pub open spec fn spec_boxes_is_game_end(b: BoxesView, players: Seq<GamePlayerView>) -> bool {
    crate::logic::count_connected(players, players.len() as int) <= 1 || b.all_owned()
}

/// The colour for an evenly spaced hue, at full saturation and half
/// lightness, as one byte per channel.
pub open spec fn spec_color_from_hue(hue: int) -> PlayerColor {
    let sector = hue / 60;
    let f = hue % 60;
    let up = (f * 255) / 60;
    let down = 255 - up;
    if sector == 0 {
        PlayerColor { red: 255, green: up as u8, blue: 0 }
    } else if sector == 1 {
        PlayerColor { red: down as u8, green: 255, blue: 0 }
    } else if sector == 2 {
        PlayerColor { red: 0, green: 255, blue: up as u8 }
    } else if sector == 3 {
        PlayerColor { red: 0, green: down as u8, blue: 255 }
    } else if sector == 4 {
        PlayerColor { red: up as u8, green: 0, blue: 255 }
    } else {
        PlayerColor { red: 255, green: 0, blue: down as u8 }
    }
}

/// The colour assigned to the player at roster position `idx` of `n`:
/// hues spaced evenly around the circle.
pub open spec fn spec_player_color(idx: int, n: int) -> PlayerColor {
    if n <= 0 || idx < 0 {
        spec_color_from_hue(0)
    } else {
        spec_color_from_hue((idx * 360 / n) % 360)
    }
}

/// Turns an evenly spaced hue into a colour.
fn color_from_hue(hue: u32) -> (r: PlayerColor)
    requires
        hue < 360,
    ensures
        r == spec_color_from_hue(hue as int),
{
    let sector = hue / 60;
    let f = hue % 60;
    let up: u32 = (f * 255) / 60;
    let down: u32 = 255 - up;
    if sector == 0 {
        PlayerColor { red: 255, green: up as u8, blue: 0 }
    } else if sector == 1 {
        PlayerColor { red: down as u8, green: 255, blue: 0 }
    } else if sector == 2 {
        PlayerColor { red: 0, green: 255, blue: up as u8 }
    } else if sector == 3 {
        PlayerColor { red: 0, green: down as u8, blue: 255 }
    } else if sector == 4 {
        PlayerColor { red: up as u8, green: 0, blue: 255 }
    } else {
        PlayerColor { red: 255, green: 0, blue: down as u8 }
    }
}

impl EdgeType {
    /// The edge's move number, zero while unclaimed.
    pub fn mov_no_or_zero(&self) -> (r: u32)
        ensures
            r == self@.edge_mov_no(),
    {
        match self {
            EdgeType::Occupied(o) => o.mov_no,
            EdgeType::Unoccupied(_) => 0,
        }
    }
}

/// The first position among `edges` holding the given edge id, searching
/// from `k`; `-1` if there is none.
pub open spec fn edge_index_from(edges: Seq<EdgeTypeView>, id: u32, k: int) -> int
    decreases edges.len() - k,
{
    if k < 0 || k >= edges.len() {
        -1
    } else if edges[k].edge_id() == id {
        k
    } else {
        edge_index_from(edges, id, k + 1)
    }
}

/// The first position among `edges` holding the given edge id, or `-1`.
pub open spec fn edge_index_of(edges: Seq<EdgeTypeView>, id: u32) -> int {
    edge_index_from(edges, id, 0)
}

proof fn lemma_edge_index_of(edges: Seq<EdgeTypeView>, id: u32, k: int)
    requires
        0 <= k <= edges.len(),
        forall|t: int| 0 <= t < k ==> (#[trigger] edges[t]).edge_id() != id,
    ensures
        edge_index_of(edges, id) == edge_index_from(edges, id, k),
    decreases k,
{
    if k > 0 {
        lemma_edge_index_of(edges, id, k - 1);
    }
}

/// What the first-position edge search promises.
pub proof fn lemma_edge_index_from_bounds(edges: Seq<EdgeTypeView>, id: u32, k: int)
    requires
        0 <= k,
    ensures
        edge_index_from(edges, id, k) == -1 || (k <= edge_index_from(edges, id, k) < edges.len()
            && edges[edge_index_from(edges, id, k)].edge_id() == id),
    decreases edges.len() - k,
{
    if k < edges.len() && edges[k].edge_id() != id {
        lemma_edge_index_from_bounds(edges, id, k + 1);
    }
}

/// Finds the first edge with the given id.
fn find_edge_in(v: &Vec<EdgeType>, id: u32) -> (r: Option<usize>)
    ensures
        r is Some <==> edge_index_of(v.deep_view(), id) >= 0,
        r is Some ==> r->Some_0 as int == edge_index_of(v.deep_view(), id),
        r is Some ==> r->Some_0 < v@.len(),
{
    let ghost es = v.deep_view();
    let mut i: usize = 0;
    while i < v.len()
        invariant
            0 <= i <= v@.len(),
            es == v.deep_view(),
            es.len() == v@.len(),
            forall|t: int| 0 <= t < i ==> (#[trigger] es[t]).edge_id() != id,
        decreases v@.len() - i,
    {
        if v[i].edge_id() == id {
            proof {
                assert(es[i as int].edge_id() == id);
                lemma_edge_index_of(es, id, i as int);
            }
            return Some(i);
        }
        proof {
            assert(v@[i as int]@ == es[i as int]);
        }
        i += 1;
    }
    proof {
        lemma_edge_index_of(es, id, v@.len() as int);
    }
    None
}

/// The largest move number among the first `k` edges.
pub open spec fn seq_max_mov(edges: Seq<EdgeTypeView>, k: int) -> u32
    decreases k,
{
    if k <= 0 {
        0
    } else {
        let prev = seq_max_mov(edges, k - 1);
        if edges[k - 1].edge_mov_no() > prev {
            edges[k - 1].edge_mov_no()
        } else {
            prev
        }
    }
}

/// The largest move number on the whole board.
pub open spec fn spec_max_mov(b: BoxesView) -> u32 {
    let h = seq_max_mov(b.horizontal_edges.edges, b.horizontal_edges.edges.len() as int);
    let v = seq_max_mov(b.vertical_edges.edges, b.vertical_edges.edges.len() as int);
    if v > h {
        v
    } else {
        h
    }
}

/// One more than `m`, capped at the type's maximum.
pub open spec fn bump_mov(m: u32) -> u32 {
    if m < u32::MAX {
        (m + 1) as u32
    } else {
        m
    }
}

/// The largest move number among the edges of `v`.
#[verifier::loop_isolation(false)]
fn max_mov_in(v: &Vec<EdgeType>) -> (r: u32)
    ensures
        r == seq_max_mov(v.deep_view(), v.deep_view().len() as int),
{
    let ghost es = v.deep_view();
    let mut best: u32 = 0;
    let mut i: usize = 0;
    while i < v.len()
        invariant
            0 <= i <= v@.len(),
            best == seq_max_mov(es, i as int),
        decreases v@.len() - i,
    {
        proof {
            assert(v@[i as int]@ == es[i as int]);
        }
        let m = v[i].mov_no_or_zero();
        if m > best {
            best = m;
        }
        i += 1;
    }
    best
}

/// The board after the edge at the first position holding `edge_id` is
/// claimed by `id` with move number `mov_no`: the left-right grid is
/// searched first, as the engine does.
pub open spec fn spec_claim(b0: BoxesView, id: Seq<char>, edge_id: u32, mov_no: u32) -> BoxesView {
    let occ = EdgeTypeView::Occupied { mov_no, occupied_by: id, id: edge_id };
    let hp = edge_index_of(b0.horizontal_edges.edges, edge_id);
    if hp >= 0 {
        BoxesView {
            horizontal_edges: GridView {
                rows: b0.horizontal_edges.rows,
                cols: b0.horizontal_edges.cols,
                edges: b0.horizontal_edges.edges.update(hp, occ),
            },
            vertical_edges: b0.vertical_edges,
            turn: b0.turn,
        }
    } else {
        let vp = edge_index_of(b0.vertical_edges.edges, edge_id);
        BoxesView {
            horizontal_edges: b0.horizontal_edges,
            vertical_edges: GridView {
                rows: b0.vertical_edges.rows,
                cols: b0.vertical_edges.cols,
                edges: b0.vertical_edges.edges.update(vp, occ),
            },
            turn: b0.turn,
        }
    }
}

/// The edge the move names, horizontal grid first, as the engine finds it.
pub open spec fn spec_found_edge(b0: BoxesView, edge_id: u32) -> Option<EdgeTypeView> {
    let hp = edge_index_of(b0.horizontal_edges.edges, edge_id);
    if hp >= 0 {
        Some(b0.horizontal_edges.edges[hp])
    } else {
        let vp = edge_index_of(b0.vertical_edges.edges, edge_id);
        if vp >= 0 {
            Some(b0.vertical_edges.edges[vp])
        } else {
            None
        }
    }
}

/// What a successful claim of `edge_id` by the turn-holder `id` does: the
/// named edge becomes theirs under the next move number, and the turn
/// passes to the next connected player unless the claim completed a box.
pub open spec fn spec_boxes_move_ok(
    b0: BoxesView,
    ps: Seq<GamePlayerView>,
    id: Seq<char>,
    edge_id: u32,
    b1: BoxesView,
) -> bool {
    let mov_no = bump_mov(spec_max_mov(b0));
    let bset = spec_claim(b0, id, edge_id, mov_no);
    &&& b1.horizontal_edges == bset.horizontal_edges
    &&& b1.vertical_edges == bset.vertical_edges
    &&& b1.turn == (if bset.count_owned(bset.rows()) <= b0.count_owned(b0.rows()) {
        match spec_boxes_next_turn(bset, ps) {
            Some(t) => t,
            None => id,
        }
    } else {
        id
    })
}

/// Everything `Boxes::handle_player_message` promises, as one predicate
/// over the boards before and after, the roster, the sender, the move and
/// the verdict.
pub open spec fn spec_boxes_outcome(
    b0: BoxesView,
    ps0: Seq<GamePlayerView>,
    id: Seq<char>,
    message: BoxesPlayerMessages,
    b1: BoxesView,
    ps1: Seq<GamePlayerView>,
    r: Result<(), Error>,
) -> bool {
    &&& b1.wf()
    &&& ps1 == ps0
    &&& (r is Err ==> b1 == b0)
    &&& (b0.turn != id ==> r is Err && r->Err_0 == Error::NotYourTurn)
    &&& (b0.turn == id && spec_found_edge(b0, message->Move_0.edge_id) is None ==> r is Err
        && r->Err_0 == Error::InvalidMove)
    &&& (b0.turn == id && (spec_found_edge(b0, message->Move_0.edge_id) matches Some(e) && e
        is Occupied) ==> r is Err && r->Err_0 == Error::InvalidMove)
    &&& (b0.turn == id && (spec_found_edge(b0, message->Move_0.edge_id) matches Some(e) && e
        is Unoccupied) ==> r is Ok && spec_boxes_move_ok(b0, ps0, id, message->Move_0.edge_id, b1))
}

impl Boxes {
    /// How many boxes have an owner, executably.
    #[verifier::loop_isolation(false)]
    fn count_owned_exec(&self) -> (r: usize)
        requires
            self@.wf(),
        ensures
            r as int == self@.count_owned(self@.rows()),
    {
        let ghost b = self@;
        let cells = self.get_cells();
        let rows = self.horizontal_edges.rows;
        let cols = self.vertical_edges.cols;
        proof {
            lemma_count_owned_bounds(b, b.rows());
            assert(b.rows() * b.cols() <= 0x8000 * 0x8000) by (nonlinear_arith)
                requires
                    0 <= b.rows() <= 0x8000,
                    0 <= b.cols() <= 0x8000,
            ;
        }
        let mut count: usize = 0;
        let mut i: usize = 0;
        while i < rows
            invariant
                0 <= i <= rows,
                count as int == b.count_owned(i as int),
                count as int <= i * b.cols(),
            decreases rows - i,
        {
            let mut j: usize = 0;
            while j < cols
                invariant
                    0 <= i < rows,
                    0 <= j <= cols,
                    count as int == b.count_owned(i as int) + b.count_owned_row(i as int, j as int),
                    count as int <= i * b.cols() + j,
                decreases cols - j,
            {
                proof {
                    assert(cells.deep_view()[i as int].len() == b.cols());
                    assert(cells@[i as int]@.len() == cells.deep_view()[i as int].len());
                    assert(cells@.len() == cells.deep_view().len());
                }
                let owned = cells[i][j].occupied_by.is_some();
                proof {
                    assert(cells@[i as int]@[j as int]@ == cells.deep_view()[i as int][j as int]);
                    assert(owned == (b.cell_owner(i as int, j as int) is Some));
                    lemma_count_owned_bounds(b, i as int);
                    assert(i * b.cols() + j < b.rows() * b.cols()) by (nonlinear_arith)
                        requires
                            0 <= i < b.rows(),
                            0 <= j < b.cols(),
                    ;
                }
                if owned {
                    count += 1;
                }
                j += 1;
            }
            proof {
                assert((i as int + 1) * b.cols() == i as int * b.cols() + b.cols())
                    by (nonlinear_arith);
            }
            i += 1;
        }
        count
    }

    /// Handles one in-game message: the turn-holder claims a free edge.
    ///
    /// A move by anyone else is rejected, as is a claim of an unknown or
    /// already claimed edge; every rejection leaves the board exactly as
    /// it was.  A successful claim stamps the edge with the next move
    /// number and passes the turn unless the claim completed a box.
    #[verifier::loop_isolation(false)]
    pub fn handle_player_message(
        &mut self,
        player_id: &String,
        players: &mut Vec<GamePlayer>,
        message: BoxesPlayerMessages,
    ) -> (r: Result<(), Error>)
        requires
            old(self)@.wf(),
            boxes_players_wf(old(players).deep_view()),
        ensures
            spec_boxes_outcome(
                old(self)@,
                old(players).deep_view(),
                player_id@,
                message,
                final(self)@,
                final(players).deep_view(),
                r,
            ),
    {
        let ghost b0 = self@;
        let BoxesPlayerMessages::Move(mov) = message;
        if self.turn != *player_id {
            return Err(Error::NotYourTurn);
        }
        let previous_cell_count = self.count_owned_exec();
        let hm = max_mov_in(&self.horizontal_edges.edges);
        let vm = max_mov_in(&self.vertical_edges.edges);
        let max_mov: u32 = if vm > hm {
            vm
        } else {
            hm
        };
        let mov_no: u32 = if max_mov < u32::MAX {
            max_mov + 1
        } else {
            max_mov
        };
        proof {
            assert(mov_no == bump_mov(spec_max_mov(b0)));
        }
        let occ = EdgeType::Occupied(
            Occupied { mov_no, occupied_by: player_id.clone(), id: mov.edge_id },
        );
        match find_edge_in(&self.horizontal_edges.edges, mov.edge_id) {
            Some(p) => {
                proof {
                    lemma_edge_index_from_bounds(b0.horizontal_edges.edges, mov.edge_id, 0);
                }
                if self.horizontal_edges.get_flat(p).is_occupied() {
                    return Err(Error::InvalidMove);
                }
                self.horizontal_edges.set_flat(p, occ);
            },
            None => {
                match find_edge_in(&self.vertical_edges.edges, mov.edge_id) {
                    Some(p) => {
                        proof {
                            lemma_edge_index_from_bounds(b0.vertical_edges.edges, mov.edge_id, 0);
                        }
                        if self.vertical_edges.get_flat(p).is_occupied() {
                            return Err(Error::InvalidMove);
                        }
                        self.vertical_edges.set_flat(p, occ);
                    },
                    None => {
                        return Err(Error::InvalidMove);
                    },
                }
            },
        }
        proof {
            assert(self@.horizontal_edges == spec_claim(
                b0,
                player_id@,
                mov.edge_id,
                mov_no,
            ).horizontal_edges);
            assert(self@.vertical_edges == spec_claim(
                b0,
                player_id@,
                mov.edge_id,
                mov_no,
            ).vertical_edges);
            assert(self@.turn == b0.turn);
        }
        let new_cell_count = self.count_owned_exec();
        if new_cell_count <= previous_cell_count {
            let next = self.get_next_turn_player(players);
            if let Some(next_player) = next {
                self.change_turn(&next_player);
            }
        }
        Ok(())
    }
}

} // verus!
