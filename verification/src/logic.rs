//! The game-mode roster and the events a room pushes to its members.

use vstd::prelude::*;

use crate::data::{spec_room_after_game_end, Player, PlayerView, Rank, RankView, Room,
    RoomStateView, RoomView};
use crate::games::{game_wf, message_wf, spec_game_outcome, Game, GameView, PlayerGameData,
    PlayerGameDataView, PlayerMessages, StartMessages};
use crate::Error;

verus! {

/// A roster entry while a game runs: the player, their per-game data, and
/// their push channel while they are connected.
pub struct GamePlayer {
    pub player: Player,
    pub data: PlayerGameData,
    pub send_channel: Option<u64>,
}

/// The mathematical value of a [`GamePlayer`].
pub struct GamePlayerView {
    pub player: PlayerView,
    pub data: PlayerGameDataView,
    pub send_channel: Option<u64>,
}

impl View for GamePlayer {
    type V = GamePlayerView;

    open spec fn view(&self) -> GamePlayerView {
        GamePlayerView { player: self.player@, data: self.data@, send_channel: self.send_channel }
    }
}

impl DeepView for GamePlayer {
    type V = GamePlayerView;

    open spec fn deep_view(&self) -> GamePlayerView {
        self.view()
    }
}

impl Clone for GamePlayer {
    fn clone(&self) -> (res: Self)
        ensures
            res@ == self@,
    {
        GamePlayer {
            player: self.player.clone(),
            data: self.data.clone(),
            send_channel: self.send_channel,
        }
    }
}

impl GamePlayer {
    /// Whether this entry currently has a live connection.
    pub fn is_connected(&self) -> (r: bool)
        ensures
            r == (self@.send_channel is Some),
    {
        self.send_channel.is_some()
    }
}

/// The state of a room in game mode: the roster and the active engine.
pub struct GameData {
    pub players: Vec<GamePlayer>,
    pub game: Game,
}

/// The mathematical value of a [`GameData`].
pub struct GameDataView {
    pub players: Seq<GamePlayerView>,
    pub game: GameView,
}

impl View for GameData {
    type V = GameDataView;

    open spec fn view(&self) -> GameDataView {
        GameDataView { players: self.players.deep_view(), game: self.game@ }
    }
}

impl Clone for GameData {
    fn clone(&self) -> (res: Self)
        ensures
            res@ == self@,
    {
        let players = clone_game_players(&self.players);
        GameData { players, game: self.game.clone() }
    }
}

/// Clones a game roster entry by entry.
pub fn clone_game_players(players: &Vec<GamePlayer>) -> (res: Vec<GamePlayer>)
    ensures
        res.deep_view() == players.deep_view(),
{
    let mut out: Vec<GamePlayer> = Vec::new();
    let mut i: usize = 0;
    while i < players.len()
        invariant
            0 <= i <= players@.len(),
            out@.len() == i,
            forall|k: int| 0 <= k < i ==> #[trigger] out.deep_view()[k] == players.deep_view()[k],
        decreases players@.len() - i,
    {
        let c = players[i].clone();
        let ghost pre = out.deep_view();
        out.push(c);
        proof {
            assert(out.deep_view() =~= pre.push(c@));
            assert(players.deep_view()[i as int] == players@[i as int]@);
        }
        i += 1;
    }
    proof {
        assert(out.deep_view() =~= players.deep_view());
    }
    out
}

/// An event a game broadcasts to the room.
pub enum GameEvents {
    GameStarted(GameStarted),
    RoomUpdate(RoomUpdate),
}

/// Announces that the lobby swapped into game mode.
pub struct GameStarted {
    pub game: Game,
}

/// Carries a fresh snapshot of the room after an in-game change.
pub struct RoomUpdate {
    pub room: Room,
}

/// The mathematical value of a [`GameEvents`].
pub enum GameEventsView {
    GameStarted(GameView),
    RoomUpdate(RoomView),
}

impl View for GameEvents {
    type V = GameEventsView;

    open spec fn view(&self) -> GameEventsView {
        match self {
            GameEvents::GameStarted(g) => GameEventsView::GameStarted(g.game@),
            GameEvents::RoomUpdate(r) => GameEventsView::RoomUpdate(r.room@),
        }
    }
}

/// A message a client sends into a room: start a game, or move in the
/// running one.
pub enum PlayerEvents {
    StartGame(StartMessages),
    GameMessage(PlayerMessages),
}

/// How many of the first `k` roster entries have a live channel.
pub open spec fn count_connected(players: Seq<GamePlayerView>, k: int) -> int
    decreases k,
{
    if k <= 0 {
        0
    } else {
        count_connected(players, k - 1) + if players[k - 1].send_channel is Some {
            1int
        } else {
            0int
        }
    }
}

/// The first roster index holding the given id, searching from `k`; `-1`
/// if there is none.
pub open spec fn game_index_from(players: Seq<GamePlayerView>, id: Seq<char>, k: int) -> int
    decreases players.len() - k,
{
    if k < 0 || k >= players.len() {
        -1
    } else if players[k].player.id == id {
        k
    } else {
        game_index_from(players, id, k + 1)
    }
}

/// The first roster index holding the given id, or `-1`.
pub open spec fn game_index_of(players: Seq<GamePlayerView>, id: Seq<char>) -> int {
    game_index_from(players, id, 0)
}

/// What the first-index search promises.
pub proof fn lemma_game_index_of(players: Seq<GamePlayerView>, id: Seq<char>, k: int)
    requires
        0 <= k <= players.len(),
        forall|t: int| 0 <= t < k ==> (#[trigger] players[t]).player.id != id,
    ensures
        game_index_of(players, id) == game_index_from(players, id, k),
    decreases k,
{
    if k > 0 {
        lemma_game_index_of(players, id, k - 1);
    }
}

/// Basic bounds of the first-index search.
pub proof fn lemma_game_index_from_bounds(players: Seq<GamePlayerView>, id: Seq<char>, k: int)
    requires
        0 <= k,
    ensures
        game_index_from(players, id, k) == -1 || (k <= game_index_from(players, id, k)
            < players.len() && players[game_index_from(players, id, k)].player.id == id),
    decreases players.len() - k,
{
    if k < players.len() && players[k].player.id != id {
        lemma_game_index_from_bounds(players, id, k + 1);
    }
}

/// Finds the first roster entry with the given id.
pub fn find_game_player(players: &Vec<GamePlayer>, id: &String) -> (r: Option<usize>)
    ensures
        r is Some <==> game_index_of(players.deep_view(), id@) >= 0,
        r is Some ==> r->Some_0 as int == game_index_of(players.deep_view(), id@),
        r is Some ==> r->Some_0 < players@.len(),
{
    let ghost ps = players.deep_view();
    let mut i: usize = 0;
    while i < players.len()
        invariant
            0 <= i <= players@.len(),
            ps == players.deep_view(),
            ps.len() == players@.len(),
            forall|t: int| 0 <= t < i ==> (#[trigger] ps[t]).player.id != id@,
        decreases players@.len() - i,
    {
        if players[i].player.id == *id {
            proof {
                assert(ps[i as int].player.id == id@);
                lemma_game_index_of(ps, id@, i as int);
            }
            return Some(i);
        }
        proof {
            assert(ps[i as int].player.id != id@);
        }
        i += 1;
    }
    proof {
        lemma_game_index_of(ps, id@, players@.len() as int);
    }
    None
}

/// Whether an event carries only well-formed payloads.
pub open spec fn event_wf(event: PlayerEvents) -> bool {
    match event {
        PlayerEvents::StartGame(_) => true,
        PlayerEvents::GameMessage(m) => message_wf(m),
    }
}

/// Whether a start request can succeed at all: Bingo always can, Boxes
/// only with sensible board dimensions.
pub open spec fn spec_start_accepted(sm: StartMessages) -> bool {
    match sm {
        StartMessages::BingoStart(_) => true,
        StartMessages::BoxesStart(d) => 1 <= d.board_width <= 0x7FFF && 1 <= d.board_height
            <= 0x7FFF,
        StartMessages::BluffStart(_) => true,
    }
}

/// The per-player game data a start request assigns to the player with
/// the given id, drawn from the pre-game roster.
pub open spec fn spec_created_data(
    sm: StartMessages,
    players: Seq<PlayerView>,
    id: Seq<char>,
) -> PlayerGameDataView {
    match sm {
        StartMessages::BingoStart(_) => PlayerGameDataView::BingoPlayerData(
            (crate::bingo::BingoPlayerDataView { board: None }),
        ),
        StartMessages::BoxesStart(_) => PlayerGameDataView::BoxesPlayerData(
            (crate::boxes::BoxesPlayerData {
                color: crate::boxes::spec_player_color(
                    crate::data::player_index_of(players, id),
                    players.len() as int,
                ),
            }),
        ),
        StartMessages::BluffStart(d) => PlayerGameDataView::BluffPlayerData(
            (crate::bluff::BluffPlayerDataView {
                cards: crate::bluff::spec_bluff_hand(
                    d.seed,
                    players.len() as int,
                    crate::data::player_index_of(players, id),
                ),
                end_turn_raised: false,
            }),
        ),
    }
}

/// The game roster a start request builds from a lobby roster: the same
/// players with the same channels, each holding their fresh game data.
pub open spec fn spec_started_players(
    lobby: Seq<crate::data::LobbyPlayerView>,
    sm: StartMessages,
) -> Seq<GamePlayerView> {
    let pviews = lobby.map_values(|lp: crate::data::LobbyPlayerView| lp.player);
    Seq::new(
        lobby.len(),
        |k: int|
            GamePlayerView {
                player: lobby[k].player,
                data: spec_created_data(sm, pviews, lobby[k].player.id),
                send_channel: lobby[k].send_channel,
            },
    )
}

/// What `Game::start_game` can promise of the engine built from the
/// given lobby roster.
pub open spec fn spec_start_witness(
    sm: StartMessages,
    lobby: Seq<crate::data::LobbyPlayerView>,
    id: Seq<char>,
    g: GameView,
) -> bool {
    spec_start_game_post(
        sm,
        lobby.map_values(|lp: crate::data::LobbyPlayerView| lp.player),
        id,
        g,
    )
}

/// What `Game::start_game` can promise of the engine it builds.
pub open spec fn spec_start_game_post(
    sm: StartMessages,
    players: Seq<PlayerView>,
    id: Seq<char>,
    g: GameView,
) -> bool {
    match sm {
        StartMessages::BingoStart(d) => g is Bingo && g->Bingo_0.board_size == d.board_size
            && g->Bingo_0.game_state is BoardCreation && g->Bingo_0.game_state->BoardCreation_0
            == Seq::<Seq<char>>::empty(),
        StartMessages::BoxesStart(d) => g is Boxes && crate::boxes::spec_boxes_started(
            d,
            players,
            g->Boxes_0,
        ),
        StartMessages::BluffStart(d) => g is Bluff && g->Bluff_0.turn == id
            && g->Bluff_0.turn_start == id && g->Bluff_0.centered_card == Seq::<Seq<
            crate::bluff::Card,
        >>::empty() && g->Bluff_0.claimed is None && g->Bluff_0.deck_card
            == crate::bluff::spec_bluff_deck(d.seed, players.len() as int, 52),
    }
}

/// The identities of a lobby roster, in order.
fn lobby_identities(players: &Vec<crate::data::LobbyPlayer>) -> (res: Vec<Player>)
    ensures
        res.deep_view() == players.deep_view().map_values(
            |lp: crate::data::LobbyPlayerView| lp.player,
        ),
{
    let ghost ps = players.deep_view();
    let mut out: Vec<Player> = Vec::new();
    let mut i: usize = 0;
    while i < players.len()
        invariant
            0 <= i <= ps.len(),
            ps == players.deep_view(),
            ps.len() == players@.len(),
            out@.len() == i,
            forall|k: int| 0 <= k < i ==> #[trigger] out.deep_view()[k] == ps[k].player,
        decreases ps.len() - i,
    {
        let p = players[i].player.clone();
        let ghost pv = p@;
        let ghost pre = out.deep_view();
        out.push(p);
        proof {
            assert(out.deep_view() =~= pre.push(pv));
            assert(players@[i as int]@ == ps[i as int]);
        }
        i += 1;
    }
    proof {
        assert(out.deep_view() =~= ps.map_values(
            |lp: crate::data::LobbyPlayerView| lp.player,
        ));
    }
    out
}

impl Room {
    /// Drives one client event through the room state machine.
    ///
    /// In the lobby, only a start request is accepted: it swaps the room
    /// into game mode, carrying every lobby member over with fresh
    /// per-player data.  In game mode, only in-game messages are
    /// accepted; they go to the active engine.  After either kind of
    /// successful change the end-of-game condition is evaluated, and a
    /// finished game is archived back into a lobby.
    #[verifier::loop_isolation(false)]
    pub fn handle_player_message(
        &mut self,
        player_id: &String,
        player_message: PlayerEvents,
    ) -> (r: Result<(), Error>)
        requires
            old(self)@.state.wf(),
            event_wf(player_message),
        ensures
            final(self)@.state.wf(),
            final(self)@.id == old(self)@.id,
            r is Err ==> final(self)@ == old(self)@,
            old(self)@.state is Lobby && player_message is GameMessage ==> r is Err && r->Err_0
                == Error::GameNotRunning,
            old(self)@.state is Game && player_message is StartGame ==> r is Err && r->Err_0
                == Error::GameAlreadyRunning,
            old(self)@.state is Lobby && player_message is StartGame ==> (r is Ok
                <==> spec_start_accepted(player_message->StartGame_0)) && (r is Err ==> r->Err_0
                == Error::InvalidMove),
            old(self)@.state is Lobby && player_message is StartGame && r is Ok ==> exists|
                g: GameView,
            |
                #[trigger] spec_start_witness(
                    player_message->StartGame_0,
                    old(self)@.state->Lobby_0.players,
                    player_id@,
                    g,
                ) && final(self)@.state == spec_room_after_game_end(
                    RoomStateView::Game(
                        (GameDataView {
                            players: spec_started_players(
                                old(self)@.state->Lobby_0.players,
                                player_message->StartGame_0,
                            ),
                            game: g,
                        }),
                    ),
                ),
            old(self)@.state is Game && player_message is GameMessage ==> exists|
                g1: GameView,
                ps1: Seq<GamePlayerView>,
            |
                #[trigger] spec_game_outcome(
                    old(self)@.state->Game_0.game,
                    old(self)@.state->Game_0.players,
                    player_id@,
                    player_message->GameMessage_0,
                    g1,
                    ps1,
                    r,
                ) && (r is Ok ==> final(self)@.state == spec_room_after_game_end(
                    RoomStateView::Game((GameDataView { players: ps1, game: g1 })),
                )),
    {
        let ghost s0 = self@.state;
        match player_message {
            PlayerEvents::StartGame(start_message) => match &self.state {
                crate::data::RoomState::Lobby(data) => {
                    let ghost lobby0 = data.players.deep_view();
                    let pplayers = lobby_identities(&data.players);
                    let ghost pviews = pplayers.deep_view();
                    let mut players: Vec<GamePlayer> = Vec::new();
                    let mut i: usize = 0;
                    while i < data.players.len()
                        invariant
                            0 <= i <= lobby0.len(),
                            players@.len() == i,
                            forall|k: int| 0 <= k < i ==> #[trigger] players.deep_view()[k]
                                == spec_started_players(lobby0, start_message)[k],
                        decreases lobby0.len() - i,
                    {
                        let p = players_entry(&data.players, i, &start_message, &pplayers);
                        let ghost pv = p@;
                        let ghost pre = players.deep_view();
                        players.push(p);
                        proof {
                            assert(players.deep_view() =~= pre.push(pv));
                        }
                        i += 1;
                    }
                    proof {
                        assert(players.deep_view() =~= spec_started_players(
                            lobby0,
                            start_message,
                        ));
                    }
                    let ghost sm = start_message;
                    match Game::start_game(start_message, &pplayers, player_id) {
                        Ok(game) => {
                            let ghost gv = game@;
                            proof {
                                assert(spec_start_game_post(sm, pviews, player_id@, gv));
                                assert(game_wf(gv, players.deep_view())) by {
                                    match gv {
                                        GameView::Bingo(_) => {
                                            assert forall|k: int|
                                                0 <= k < players.deep_view().len() implies (
                                            #[trigger] players.deep_view()[k]).data
                                                is BingoPlayerData by {
                                                assert(players.deep_view()[k]
                                                    == spec_started_players(lobby0, sm)[k]);
                                            }
                                            assert forall|k: int|
                                                0 <= k < players.deep_view().len()
                                                    && crate::bingo::player_board(
                                                    #[trigger] players.deep_view()[k],
                                                ) is Some implies crate::bingo::board_wf(
                                                crate::bingo::player_board(
                                                    players.deep_view()[k],
                                                )->Some_0,
                                            ) by {
                                                assert(players.deep_view()[k]
                                                    == spec_started_players(lobby0, sm)[k]);
                                            }
                                        },
                                        GameView::Boxes(_) => {
                                            assert forall|k: int|
                                                0 <= k < players.deep_view().len() implies (
                                            #[trigger] players.deep_view()[k]).data
                                                is BoxesPlayerData by {
                                                assert(players.deep_view()[k]
                                                    == spec_started_players(lobby0, sm)[k]);
                                            }
                                        },
                                        GameView::Bluff(_) => {
                                            assert forall|k: int|
                                                0 <= k < players.deep_view().len() implies (
                                            #[trigger] players.deep_view()[k]).data
                                                is BluffPlayerData by {
                                                assert(players.deep_view()[k]
                                                    == spec_started_players(lobby0, sm)[k]);
                                            }
                                        },
                                    }
                                }
                            }
                            let ghost started = players.deep_view();
                            self.state = crate::data::RoomState::Game(GameData { players, game });
                            self.state.handle_game_end();
                            proof {
                                assert(spec_start_witness(sm, lobby0, player_id@, gv));
                                assert(started == spec_started_players(lobby0, sm));
                                assert(self@.state == spec_room_after_game_end(
                                    RoomStateView::Game(
                                        (GameDataView {
                                            players: spec_started_players(lobby0, sm),
                                            game: gv,
                                        }),
                                    ),
                                ));
                            }
                            Ok(())
                        },
                        Err(e) => Err(e),
                    }
                },
                crate::data::RoomState::Game(_) => Err(Error::GameAlreadyRunning),
            },
            PlayerEvents::GameMessage(message) => match &mut self.state {
                crate::data::RoomState::Lobby(_) => Err(Error::GameNotRunning),
                crate::data::RoomState::Game(game) => {
                    proof {
                        assert(player_message->GameMessage_0 == message);
                    }
                    let ghost g0 = game.game@;
                    let ghost ps0 = game.players.deep_view();
                    proof {
                        assert(g0 == old(self)@.state->Game_0.game);
                        assert(ps0 == old(self)@.state->Game_0.players);
                    }
                    let res = game.game.handle_player_message(
                        player_id,
                        &mut game.players,
                        message,
                    );
                    let ghost g1 = game.game@;
                    let ghost ps1 = game.players.deep_view();
                    proof {
                        assert(spec_game_outcome(
                            g0,
                            ps0,
                            player_id@,
                            message,
                            g1,
                            ps1,
                            res,
                        ));
                    }
                    match res {
                        Ok(u) => {
                            self.state.handle_game_end();
                            proof {
                                assert(self@.state == spec_room_after_game_end(
                                    RoomStateView::Game(
                                        (GameDataView { players: ps1, game: g1 }),
                                    ),
                                ));
                                assert(exists|g1x: GameView, ps1x: Seq<GamePlayerView>|
                                    #[trigger] spec_game_outcome(
                                        old(self)@.state->Game_0.game,
                                        old(self)@.state->Game_0.players,
                                        player_id@,
                                        player_message->GameMessage_0,
                                        g1x,
                                        ps1x,
                                        res,
                                    ) && self@.state == spec_room_after_game_end(
                                        RoomStateView::Game(
                                            (GameDataView { players: ps1x, game: g1x }),
                                        ),
                                    ));
                            }
                            Ok(u)
                        },
                        Err(e) => {
                            proof {
                                assert(exists|g1x: GameView, ps1x: Seq<GamePlayerView>|
                                    #[trigger] spec_game_outcome(
                                        old(self)@.state->Game_0.game,
                                        old(self)@.state->Game_0.players,
                                        player_id@,
                                        player_message->GameMessage_0,
                                        g1x,
                                        ps1x,
                                        res,
                                    ));
                            }
                            Err(e)
                        },
                    }
                },
            },
        }
    }
}

/// One game roster entry built from a lobby entry during a start request.
fn players_entry(
    lobby: &Vec<crate::data::LobbyPlayer>,
    i: usize,
    sm: &StartMessages,
    pplayers: &Vec<Player>,
) -> (r: GamePlayer)
    requires
        i < lobby@.len(),
        pplayers.deep_view() == lobby.deep_view().map_values(
            |lp: crate::data::LobbyPlayerView| lp.player,
        ),
    ensures
        r@ == spec_started_players(lobby.deep_view(), *sm)[i as int],
{
    let entry = &lobby[i];
    proof {
        assert(lobby@[i as int]@ == lobby.deep_view()[i as int]);
    }
    let data = Game::create_player_data(sm, pplayers, &entry.player.id);
    GamePlayer { player: entry.player.clone(), data, send_channel: entry.send_channel }
}

impl GameData {
    /// Advances the turn to the engine's chosen next player, if any.
    pub fn change_turn(&mut self)
        requires
            game_wf(old(self)@.game, old(self)@.players),
        ensures
            final(self)@.players == old(self)@.players,
            final(self)@.game == (match crate::games::spec_game_next_turn(
                old(self)@.game,
                old(self)@.players,
            ) {
                Some(t) => crate::games::spec_game_change_turn(old(self)@.game, t),
                None => old(self)@.game,
            }),
    {
        let next = self.game.get_next_turn_player(&self.players);
        if let Some(player_id) = next {
            self.game.change_turn(&player_id);
        }
    }

    /// The active engine's leaderboard for this roster.
    pub fn get_rankings(&self) -> (r: Vec<Rank>)
        requires
            game_wf(self@.game, self@.players),
        ensures
            r.deep_view() == crate::games::spec_game_rankings(self@.game, self@.players),
    {
        self.game.get_rankings(&self.players)
    }

    /// Whether the active engine's end condition holds for this roster.
    pub fn is_game_end(&self) -> (r: bool)
        requires
            game_wf(self@.game, self@.players),
        ensures
            r == crate::games::spec_game_is_end(self@.game, self@.players),
    {
        self.game.is_game_end(&self.players)
    }
}

} // verus!
