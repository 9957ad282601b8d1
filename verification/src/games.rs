//! The closed set of game variants a room can run, and the tagged unions
//! that carry their per-player data, their start parameters and their
//! in-game messages through the room driver.

use vstd::prelude::*;

use crate::bingo::{Bingo, BingoPlayerData, BingoPlayerDataView, BingoPlayerMessages, BingoStart,
    BingoView};
use crate::bluff::{Bluff, BluffPlayerData, BluffPlayerDataView, BluffPlayerMessages, BluffView,
    StartBluff};
use crate::boxes::{Boxes, BoxesPlayerData, BoxesPlayerMessages, BoxesStart, BoxesView};
use crate::data::{Player, Rank, RankView};
use crate::logic::{GamePlayer, GamePlayerView};
use crate::Error;

verus! {

/// The active engine of a room in game mode.
pub enum Game {
    Bingo(Bingo),
    Boxes(Boxes),
    Bluff(Bluff),
}

/// The mathematical value of a [`Game`].
pub enum GameView {
    Bingo(BingoView),
    Boxes(BoxesView),
    Bluff(BluffView),
}

impl View for Game {
    type V = GameView;

    open spec fn view(&self) -> GameView {
        match self {
            Game::Bingo(b) => GameView::Bingo(b@),
            Game::Boxes(b) => GameView::Boxes(b@),
            Game::Bluff(b) => GameView::Bluff(b@),
        }
    }
}

impl Clone for Game {
    fn clone(&self) -> (res: Self)
        ensures
            res@ == self@,
    {
        match self {
            Game::Bingo(b) => Game::Bingo(b.clone()),
            Game::Boxes(b) => Game::Boxes(b.clone()),
            Game::Bluff(b) => Game::Bluff(b.clone()),
        }
    }
}

impl Game {
    /// The Bingo engine, if that is the active variant.
    pub fn as_bingo(&self) -> (r: Option<&Bingo>)
        ensures
            r is Some <==> self@ is Bingo,
            r is Some ==> r->Some_0@ == self@->Bingo_0,
    {
        if let Self::Bingo(v) = self {
            Some(v)
        } else {
            None
        }
    }

    /// The Boxes engine, if that is the active variant.
    pub fn as_boxes(&self) -> (r: Option<&Boxes>)
        ensures
            r is Some <==> self@ is Boxes,
            r is Some ==> r->Some_0@ == self@->Boxes_0,
    {
        if let Self::Boxes(v) = self {
            Some(v)
        } else {
            None
        }
    }

    /// The Bluff engine, if that is the active variant.
    pub fn as_bluff(&self) -> (r: Option<&Bluff>)
        ensures
            r is Some <==> self@ is Bluff,
            r is Some ==> r->Some_0@ == self@->Bluff_0,
    {
        if let Self::Bluff(v) = self {
            Some(v)
        } else {
            None
        }
    }
}

/// A player's per-game data, tagged by variant.
pub enum PlayerGameData {
    BingoPlayerData(BingoPlayerData),
    BoxesPlayerData(BoxesPlayerData),
    BluffPlayerData(BluffPlayerData),
}

/// The mathematical value of a [`PlayerGameData`].
pub enum PlayerGameDataView {
    BingoPlayerData(BingoPlayerDataView),
    BoxesPlayerData(BoxesPlayerData),
    BluffPlayerData(BluffPlayerDataView),
}

impl View for PlayerGameData {
    type V = PlayerGameDataView;

    open spec fn view(&self) -> PlayerGameDataView {
        match self {
            PlayerGameData::BingoPlayerData(d) => PlayerGameDataView::BingoPlayerData(d@),
            PlayerGameData::BoxesPlayerData(d) => PlayerGameDataView::BoxesPlayerData(*d),
            PlayerGameData::BluffPlayerData(d) => PlayerGameDataView::BluffPlayerData(d@),
        }
    }
}

impl Clone for PlayerGameData {
    fn clone(&self) -> (res: Self)
        ensures
            res@ == self@,
    {
        match self {
            PlayerGameData::BingoPlayerData(d) => PlayerGameData::BingoPlayerData(d.clone()),
            PlayerGameData::BoxesPlayerData(d) => PlayerGameData::BoxesPlayerData(*d),
            PlayerGameData::BluffPlayerData(d) => PlayerGameData::BluffPlayerData(d.clone()),
        }
    }
}

impl PlayerGameData {
    /// The Bingo per-player data, if this entry carries that variant.
    pub fn as_bingo_player_data(&self) -> (r: Option<&BingoPlayerData>)
        ensures
            r is Some <==> self@ is BingoPlayerData,
            r is Some ==> r->Some_0@ == self@->BingoPlayerData_0,
    {
        if let Self::BingoPlayerData(v) = self {
            Some(v)
        } else {
            None
        }
    }

    /// The Bingo per-player data, mutably.
    pub fn as_bingo_player_data_mut(&mut self) -> (r: Option<&mut BingoPlayerData>)
        ensures
            r is Some <==> old(self)@ is BingoPlayerData,
            old(self)@ is BingoPlayerData ==> r is Some && final(r->Some_0)@ == final(self)@
                ->BingoPlayerData_0 && r->Some_0@ == old(self)@->BingoPlayerData_0 && final(self)@
                is BingoPlayerData,
            !(old(self)@ is BingoPlayerData) ==> final(self)@ == old(self)@,
    {
        if let Self::BingoPlayerData(v) = self {
            Some(v)
        } else {
            None
        }
    }

    /// The Boxes per-player data, if this entry carries that variant.
    pub fn as_boxes_player_data(&self) -> (r: Option<&BoxesPlayerData>)
        ensures
            r is Some <==> self@ is BoxesPlayerData,
            r is Some ==> *r->Some_0 == self@->BoxesPlayerData_0,
    {
        if let Self::BoxesPlayerData(v) = self {
            Some(v)
        } else {
            None
        }
    }

    /// The Bluff per-player data, if this entry carries that variant.
    pub fn as_bluff_player_data(&self) -> (r: Option<&BluffPlayerData>)
        ensures
            r is Some <==> self@ is BluffPlayerData,
            r is Some ==> r->Some_0@ == self@->BluffPlayerData_0,
    {
        if let Self::BluffPlayerData(v) = self {
            Some(v)
        } else {
            None
        }
    }
}

/// An in-game message, tagged by variant.
pub enum PlayerMessages {
    BingoMessages(BingoPlayerMessages),
    BoxesPlayerMessages(BoxesPlayerMessages),
    BluffPlayerMessages(BluffPlayerMessages),
}

impl PlayerMessages {
    /// The Bingo message, if this is one.
    pub fn as_bingo_messages(&self) -> (r: Option<&BingoPlayerMessages>)
        ensures
            r is Some <==> *self is BingoMessages,
    {
        if let Self::BingoMessages(v) = self {
            Some(v)
        } else {
            None
        }
    }

    /// The Bingo message by value, or the message back if it is not one.
    pub fn try_into_bingo_messages(self) -> (r: Result<BingoPlayerMessages, Self>)
        ensures
            r is Ok <==> self is BingoMessages,
            r is Ok ==> r->Ok_0 == self->BingoMessages_0,
            r is Err ==> r->Err_0 == self,
    {
        if let Self::BingoMessages(v) = self {
            Ok(v)
        } else {
            Err(self)
        }
    }

    /// The Boxes message, if this is one.
    pub fn as_boxes_player_messages(&self) -> (r: Option<&BoxesPlayerMessages>)
        ensures
            r is Some <==> *self is BoxesPlayerMessages,
    {
        if let Self::BoxesPlayerMessages(v) = self {
            Some(v)
        } else {
            None
        }
    }

    /// The Boxes message by value, or the message back if it is not one.
    pub fn try_into_boxes_player_messages(self) -> (r: Result<BoxesPlayerMessages, Self>)
        ensures
            r is Ok <==> self is BoxesPlayerMessages,
            r is Ok ==> r->Ok_0 == self->BoxesPlayerMessages_0,
            r is Err ==> r->Err_0 == self,
    {
        if let Self::BoxesPlayerMessages(v) = self {
            Ok(v)
        } else {
            Err(self)
        }
    }

    /// The Bluff message, if this is one.
    pub fn as_bluff_player_messages(&self) -> (r: Option<&BluffPlayerMessages>)
        ensures
            r is Some <==> *self is BluffPlayerMessages,
    {
        if let Self::BluffPlayerMessages(v) = self {
            Some(v)
        } else {
            None
        }
    }

    /// The Bluff message by value, or the message back if it is not one.
    pub fn try_into_bluff_player_messages(self) -> (r: Result<BluffPlayerMessages, Self>)
        ensures
            r is Ok <==> self is BluffPlayerMessages,
            r is Ok ==> r->Ok_0 == self->BluffPlayerMessages_0,
            r is Err ==> r->Err_0 == self,
    {
        if let Self::BluffPlayerMessages(v) = self {
            Ok(v)
        } else {
            Err(self)
        }
    }
}

/// The parameters a game is started with, tagged by variant.
pub enum StartMessages {
    BingoStart(BingoStart),
    BoxesStart(BoxesStart),
    BluffStart(StartBluff),
}

/// A well-formed game state: the roster matches the active variant and
/// the variant's own shape conditions hold.
pub open spec fn game_wf(g: GameView, players: Seq<GamePlayerView>) -> bool {
    match g {
        GameView::Bingo(_) => crate::bingo::bingo_players_wf(players),
        GameView::Boxes(b) => b.wf() && crate::boxes::boxes_players_wf(players),
        GameView::Bluff(_) => crate::bluff::bluff_players_wf(players),
    }
}

/// Whether a message carries only well-formed payloads: a submitted board
/// must be square and bounded.
pub open spec fn message_wf(message: PlayerMessages) -> bool {
    match message {
        PlayerMessages::BingoMessages(m) => m is ReadyBoard ==> crate::bingo::board_wf(
            m->ReadyBoard_0@,
        ),
        PlayerMessages::BoxesPlayerMessages(_) => true,
        PlayerMessages::BluffPlayerMessages(_) => true,
    }
}

/// Whether the active variant reports its game as running.
pub open spec fn spec_game_is_running(g: GameView) -> bool {
    match g {
        GameView::Bingo(b) => b.game_state is GameRunning,
        GameView::Boxes(_) => true,
        GameView::Bluff(_) => true,
    }
}

/// Whether the named player currently holds the turn.
pub open spec fn spec_game_can_change_turn(g: GameView, id: Seq<char>) -> bool {
    match g {
        GameView::Bingo(b) => b.game_state is GameRunning && b.game_state->GameRunning_0.turn
            == id,
        GameView::Boxes(b) => b.turn == id,
        GameView::Bluff(b) => b.turn == id,
    }
}

/// The game with its turn reassigned to the named player.
pub open spec fn spec_game_change_turn(g: GameView, id: Seq<char>) -> GameView {
    match g {
        GameView::Bingo(b) => GameView::Bingo(crate::bingo::spec_change_turn(b, id)),
        GameView::Boxes(b) => GameView::Boxes(
            (BoxesView {
                horizontal_edges: b.horizontal_edges,
                vertical_edges: b.vertical_edges,
                turn: id,
            }),
        ),
        GameView::Bluff(b) => GameView::Bluff(
            (BluffView {
                turn_start: b.turn_start,
                turn: id,
                centered_card: b.centered_card,
                deck_card: b.deck_card,
                claimed: b.claimed,
            }),
        ),
    }
}

/// The active variant's leaderboard.
pub open spec fn spec_game_rankings(g: GameView, players: Seq<GamePlayerView>) -> Seq<RankView> {
    match g {
        GameView::Bingo(b) => crate::bingo::spec_rankings(b, players),
        GameView::Boxes(b) => crate::boxes::spec_boxes_rankings(b, players),
        GameView::Bluff(_) => crate::bluff::spec_bluff_rankings(players),
    }
}

/// The active variant's choice of next turn-holder.
pub open spec fn spec_game_next_turn(g: GameView, players: Seq<GamePlayerView>) -> Option<
    Seq<char>,
> {
    match g {
        GameView::Bingo(b) => crate::bingo::spec_next_turn(b, players),
        GameView::Boxes(b) => crate::boxes::spec_boxes_next_turn(b, players),
        GameView::Bluff(b) => crate::bluff::spec_bluff_next_after(players, b.turn),
    }
}

/// Whether the active variant's end condition holds.
pub open spec fn spec_game_is_end(g: GameView, players: Seq<GamePlayerView>) -> bool {
    match g {
        GameView::Bingo(b) => crate::bingo::spec_is_game_end(b, players),
        GameView::Boxes(b) => crate::boxes::spec_boxes_is_game_end(b, players),
        GameView::Bluff(_) => crate::bluff::spec_bluff_is_game_end(players),
    }
}

/// Everything `Game::handle_player_message` promises, as one predicate
/// over the game states before and after, the rosters, the sender, the
/// message and the verdict.
pub open spec fn spec_game_outcome(
    g0: GameView,
    ps0: Seq<GamePlayerView>,
    id: Seq<char>,
    message: PlayerMessages,
    g1: GameView,
    ps1: Seq<GamePlayerView>,
    r: Result<(), Error>,
) -> bool {
    &&& game_wf(g1, ps1)
    &&& (r is Err ==> g1 == g0 && ps1 == ps0)
    &&& (g0 is Bingo && !(message is BingoMessages) ==> r is Err && r->Err_0
        == Error::WrongGameMessage)
    &&& (g0 is Boxes && !(message is BoxesPlayerMessages) ==> r is Err && r->Err_0
        == Error::WrongGameMessage)
    &&& (g0 is Bluff && !(message is BluffPlayerMessages) ==> r is Err && r->Err_0
        == Error::WrongGameMessage)
    &&& (g0 is Bingo && message is BingoMessages ==> g1 is Bingo
        && crate::bingo::spec_bingo_outcome(
        g0->Bingo_0,
        ps0,
        id,
        message->BingoMessages_0,
        g1->Bingo_0,
        ps1,
        r,
    ))
    &&& (g0 is Boxes && message is BoxesPlayerMessages ==> g1 is Boxes
        && crate::boxes::spec_boxes_outcome(
        g0->Boxes_0,
        ps0,
        id,
        message->BoxesPlayerMessages_0,
        g1->Boxes_0,
        ps1,
        r,
    ))
    &&& (g0 is Bluff && message is BluffPlayerMessages ==> g1 is Bluff
        && crate::bluff::spec_bluff_outcome(
        g0->Bluff_0,
        ps0,
        id,
        message->BluffPlayerMessages_0,
        g1->Bluff_0,
        ps1,
        r,
    ))
}

impl Game {
    /// Whether the active variant reports its game as running.
    pub fn is_game_running(&self) -> (r: bool)
        ensures
            r == spec_game_is_running(self@),
    {
        match self {
            Game::Bingo(b) => b.is_game_running(),
            Game::Boxes(b) => b.is_game_running(),
            Game::Bluff(b) => b.is_game_running(),
        }
    }

    /// Whether the named player currently holds the turn.
    pub fn can_change_turn(&self, player_id: &String) -> (r: bool)
        ensures
            r == spec_game_can_change_turn(self@, player_id@),
    {
        match self {
            Game::Bingo(b) => b.can_change_turn(player_id),
            Game::Boxes(b) => b.can_change_turn(player_id),
            Game::Bluff(b) => b.can_change_turn(player_id),
        }
    }

    /// Reassigns the turn unconditionally.
    pub fn change_turn(&mut self, player_id: &String)
        ensures
            final(self)@ == spec_game_change_turn(old(self)@, player_id@),
    {
        match self {
            Game::Bingo(b) => b.change_turn(player_id),
            Game::Boxes(b) => b.change_turn(player_id),
            Game::Bluff(b) => b.change_turn(player_id),
        }
    }

    /// The active variant's leaderboard.
    pub fn get_rankings(&self, players: &Vec<GamePlayer>) -> (r: Vec<Rank>)
        requires
            game_wf(self@, players.deep_view()),
        ensures
            r.deep_view() == spec_game_rankings(self@, players.deep_view()),
    {
        match self {
            Game::Bingo(b) => b.get_rankings(players),
            Game::Boxes(b) => b.get_rankings(players),
            Game::Bluff(b) => b.get_rankings(players),
        }
    }

    /// The active variant's choice of next turn-holder.
    pub fn get_next_turn_player(&self, players: &Vec<GamePlayer>) -> (r: Option<String>)
        requires
            game_wf(self@, players.deep_view()),
        ensures
            r.deep_view() == spec_game_next_turn(self@, players.deep_view()),
    {
        match self {
            Game::Bingo(b) => b.get_next_turn_player(players),
            Game::Boxes(b) => b.get_next_turn_player(players),
            Game::Bluff(b) => b.get_next_turn_player(players),
        }
    }

    /// Whether the active variant's end condition holds.
    pub fn is_game_end(&self, players: &Vec<GamePlayer>) -> (r: bool)
        requires
            game_wf(self@, players.deep_view()),
        ensures
            r == spec_game_is_end(self@, players.deep_view()),
    {
        match self {
            Game::Bingo(b) => b.is_game_end(players),
            Game::Boxes(b) => b.is_game_end(players),
            Game::Bluff(b) => b.is_game_end(players),
        }
    }

    /// Hands the message to the active variant, rejecting one meant for
    /// the other.
    pub fn handle_player_message(
        &mut self,
        player_id: &String,
        players: &mut Vec<GamePlayer>,
        message: PlayerMessages,
    ) -> (r: Result<(), Error>)
        requires
            game_wf(old(self)@, old(players).deep_view()),
            message_wf(message),
        ensures
            spec_game_outcome(
                old(self)@,
                old(players).deep_view(),
                player_id@,
                message,
                final(self)@,
                final(players).deep_view(),
                r,
            ),
    {
        match self {
            Game::Bingo(b) => match message.try_into_bingo_messages() {
                Ok(m) => b.handle_player_message(player_id, players, m),
                Err(_) => Err(Error::WrongGameMessage),
            },
            Game::Boxes(b) => match message.try_into_boxes_player_messages() {
                Ok(m) => b.handle_player_message(player_id, players, m),
                Err(_) => Err(Error::WrongGameMessage),
            },
            Game::Bluff(b) => match message.try_into_bluff_player_messages() {
                Ok(m) => b.handle_player_message(player_id, players, m),
                Err(_) => Err(Error::WrongGameMessage),
            },
        }
    }

    /// Builds the engine a start request names.
    pub fn start_game(
        data: StartMessages,
        players: &Vec<Player>,
        player_id: &String,
    ) -> (r: Result<Game, Error>)
        ensures
            data is BingoStart ==> r is Ok && r->Ok_0@ is Bingo
                && r->Ok_0@->Bingo_0.board_size == data->BingoStart_0.board_size
                && r->Ok_0@->Bingo_0.game_state is BoardCreation
                && r->Ok_0@->Bingo_0.game_state->BoardCreation_0 == Seq::<Seq<char>>::empty(),
            data is BoxesStart ==> (r is Ok <==> 1 <= data->BoxesStart_0.board_width <= 0x7FFF
                && 1 <= data->BoxesStart_0.board_height <= 0x7FFF),
            data is BoxesStart && r is Ok ==> r->Ok_0@ is Boxes
                && crate::boxes::spec_boxes_started(
                data->BoxesStart_0,
                players.deep_view(),
                r->Ok_0@->Boxes_0,
            ),
            data is BluffStart ==> r is Ok && r->Ok_0@ is Bluff
                && r->Ok_0@->Bluff_0.turn == player_id@ && r->Ok_0@->Bluff_0.turn_start
                == player_id@ && r->Ok_0@->Bluff_0.centered_card == Seq::<Seq<
                crate::bluff::Card,
            >>::empty() && r->Ok_0@->Bluff_0.claimed is None && r->Ok_0@->Bluff_0.deck_card
                == crate::bluff::spec_bluff_deck(
                data->BluffStart_0.seed,
                players@.len() as int,
                52,
            ),
            r is Err ==> r->Err_0 == Error::InvalidMove,
    {
        match data {
            StartMessages::BingoStart(data) => Ok(Game::Bingo(
                Bingo::start_game(data, players, player_id),
            )),
            StartMessages::BoxesStart(data) => match Boxes::start_game(data, players, player_id) {
                Ok(b) => Ok(Game::Boxes(b)),
                Err(e) => Err(e),
            },
            StartMessages::BluffStart(data) => Ok(Game::Bluff(
                Bluff::start_game(data, players, player_id),
            )),
        }
    }

    /// Builds the per-player data the start request's variant calls for.
    pub fn create_player_data(
        data: &StartMessages,
        players: &Vec<Player>,
        player_id: &String,
    ) -> (r: PlayerGameData)
        ensures
            data is BingoStart ==> r@ is BingoPlayerData && r@->BingoPlayerData_0.board is None,
            data is BoxesStart ==> r@ is BoxesPlayerData && r@->BoxesPlayerData_0.color
                == crate::boxes::spec_player_color(
                crate::data::player_index_of(players.deep_view(), player_id@),
                players@.len() as int,
            ),
            data is BluffStart ==> r@ is BluffPlayerData && r@->BluffPlayerData_0.cards
                == crate::bluff::spec_bluff_hand(
                data->BluffStart_0.seed,
                players@.len() as int,
                crate::data::player_index_of(players.deep_view(), player_id@),
            ) && !r@->BluffPlayerData_0.end_turn_raised,
    {
        match data {
            StartMessages::BingoStart(data) => PlayerGameData::BingoPlayerData(
                Bingo::create_player_data(data, players, player_id),
            ),
            StartMessages::BoxesStart(data) => PlayerGameData::BoxesPlayerData(
                Boxes::create_player_data(data, players, player_id),
            ),
            StartMessages::BluffStart(data) => PlayerGameData::BluffPlayerData(
                Bluff::create_player_data(data, players, player_id),
            ),
        }
    }
}

} // verus!
