//! The room data model: players, rosters, the two-mode room state machine
//! and the events a room pushes to its members.

use vstd::prelude::*;

use crate::games::{game_wf, spec_game_is_end, spec_game_is_running, spec_game_rankings};
use crate::logic::{clone_game_players, game_index_of, GameData, GameDataView, GameEvents,
    GameEventsView, GamePlayer, GamePlayerView};
use crate::Error;

verus! {

/// A player's immutable identity.
pub struct Player {
    pub id: String,
    pub name: String,
}

/// The mathematical value of a [`Player`].
pub struct PlayerView {
    pub id: Seq<char>,
    pub name: Seq<char>,
}

impl View for Player {
    type V = PlayerView;

    open spec fn view(&self) -> PlayerView {
        PlayerView { id: self.id@, name: self.name@ }
    }
}

impl DeepView for Player {
    type V = PlayerView;

    open spec fn deep_view(&self) -> PlayerView {
        self.view()
    }
}

impl Clone for Player {
    fn clone(&self) -> (res: Self)
        ensures
            res@ == self@,
    {
        Player { id: self.id.clone(), name: self.name.clone() }
    }
}

/// One row of a leaderboard: a rank number and the ranked player.
pub struct Rank {
    pub rank: u32,
    pub player: Player,
}

/// The mathematical value of a [`Rank`].
pub struct RankView {
    pub rank: u32,
    pub player: PlayerView,
}

impl View for Rank {
    type V = RankView;

    open spec fn view(&self) -> RankView {
        RankView { rank: self.rank, player: self.player@ }
    }
}

impl DeepView for Rank {
    type V = RankView;

    open spec fn deep_view(&self) -> RankView {
        self.view()
    }
}

impl Clone for Rank {
    fn clone(&self) -> (res: Self)
        ensures
            res@ == self@,
    {
        Rank { rank: self.rank, player: self.player.clone() }
    }
}

/// A roster entry while the room is a lobby: the player, and their push
/// channel while they are connected.
pub struct LobbyPlayer {
    pub player: Player,
    pub send_channel: Option<u64>,
}

/// The mathematical value of a [`LobbyPlayer`].
pub struct LobbyPlayerView {
    pub player: PlayerView,
    pub send_channel: Option<u64>,
}

impl View for LobbyPlayer {
    type V = LobbyPlayerView;

    open spec fn view(&self) -> LobbyPlayerView {
        LobbyPlayerView { player: self.player@, send_channel: self.send_channel }
    }
}

impl DeepView for LobbyPlayer {
    type V = LobbyPlayerView;

    open spec fn deep_view(&self) -> LobbyPlayerView {
        self.view()
    }
}

impl Clone for LobbyPlayer {
    fn clone(&self) -> (res: Self)
        ensures
            res@ == self@,
    {
        LobbyPlayer { player: self.player.clone(), send_channel: self.send_channel }
    }
}

/// Clones a lobby roster entry by entry.
pub fn clone_lobby_players(players: &Vec<LobbyPlayer>) -> (res: Vec<LobbyPlayer>)
    ensures
        res.deep_view() == players.deep_view(),
{
    let mut out: Vec<LobbyPlayer> = Vec::new();
    let mut i: usize = 0;
    while i < players.len()
        invariant
            0 <= i <= players@.len(),
            out@.len() == i,
            forall|k: int| 0 <= k < i ==> #[trigger] out.deep_view()[k] == players.deep_view()[k],
        decreases players@.len() - i,
    {
        let c = players[i].clone();
        let ghost pre = out.deep_view();
        out.push(c);
        proof {
            assert(out.deep_view() =~= pre.push(c@));
            assert(players.deep_view()[i as int] == players@[i as int]@);
        }
        i += 1;
    }
    proof {
        assert(out.deep_view() =~= players.deep_view());
    }
    out
}

/// The archived summary of the game a lobby just finished.
pub struct LastGame {
    pub last_game: GameData,
    pub leader_board: Vec<Rank>,
}

/// The mathematical value of a [`LastGame`].
pub struct LastGameView {
    pub last_game: GameDataView,
    pub leader_board: Seq<RankView>,
}

impl View for LastGame {
    type V = LastGameView;

    open spec fn view(&self) -> LastGameView {
        LastGameView {
            last_game: self.last_game@,
            leader_board: self.leader_board.deep_view(),
        }
    }
}

impl Clone for LastGame {
    fn clone(&self) -> (res: Self)
        ensures
            res@ == self@,
    {
        let mut leader_board: Vec<Rank> = Vec::new();
        let mut i: usize = 0;
        while i < self.leader_board.len()
            invariant
                0 <= i <= self.leader_board@.len(),
                leader_board@.len() == i,
                forall|k: int| 0 <= k < i ==> #[trigger] leader_board.deep_view()[k]
                    == self.leader_board.deep_view()[k],
            decreases self.leader_board@.len() - i,
        {
            let c = self.leader_board[i].clone();
            let ghost pre = leader_board.deep_view();
            leader_board.push(c);
            proof {
                assert(leader_board.deep_view() =~= pre.push(c@));
                assert(self.leader_board.deep_view()[i as int] == self.leader_board@[i as int]@);
            }
            i += 1;
        }
        proof {
            assert(leader_board.deep_view() =~= self.leader_board.deep_view());
        }
        LastGame { last_game: self.last_game.clone(), leader_board }
    }
}

/// The lobby state of a room: the waiting roster and, after a game, its
/// archived summary.
pub struct LobbyData {
    pub players: Vec<LobbyPlayer>,
    pub last_game: Option<LastGame>,
}

/// The mathematical value of a [`LobbyData`].
pub struct LobbyDataView {
    pub players: Seq<LobbyPlayerView>,
    pub last_game: Option<LastGameView>,
}

impl View for LobbyData {
    type V = LobbyDataView;

    open spec fn view(&self) -> LobbyDataView {
        LobbyDataView { players: self.players.deep_view(), last_game: self.last_game.deep_view() }
    }
}

impl DeepView for LastGame {
    type V = LastGameView;

    open spec fn deep_view(&self) -> LastGameView {
        self.view()
    }
}

impl Clone for LobbyData {
    fn clone(&self) -> (res: Self)
        ensures
            res@ == self@,
    {
        let players = clone_lobby_players(&self.players);
        let last_game = match &self.last_game {
            Some(lg) => Some(lg.clone()),
            None => None,
        };
        LobbyData { players, last_game }
    }
}

/// A room is always in exactly one of these two modes.
pub enum RoomState {
    Lobby(LobbyData),
    Game(GameData),
}

/// The mathematical value of a [`RoomState`].
pub enum RoomStateView {
    Lobby(LobbyDataView),
    Game(GameDataView),
}

impl View for RoomState {
    type V = RoomStateView;

    open spec fn view(&self) -> RoomStateView {
        match self {
            RoomState::Lobby(d) => RoomStateView::Lobby(d@),
            RoomState::Game(d) => RoomStateView::Game(d@),
        }
    }
}

impl Clone for RoomState {
    fn clone(&self) -> (res: Self)
        ensures
            res@ == self@,
    {
        match self {
            RoomState::Lobby(d) => RoomState::Lobby(d.clone()),
            RoomState::Game(d) => RoomState::Game(d.clone()),
        }
    }
}

/// A named multiplayer session container.
pub struct Room {
    pub id: String,
    pub state: RoomState,
}

/// The mathematical value of a [`Room`].
pub struct RoomView {
    pub id: Seq<char>,
    pub state: RoomStateView,
}

impl View for Room {
    type V = RoomView;

    open spec fn view(&self) -> RoomView {
        RoomView { id: self.id@, state: self.state@ }
    }
}

impl DeepView for Room {
    type V = RoomView;

    open spec fn deep_view(&self) -> RoomView {
        self.view()
    }
}

impl Clone for Room {
    fn clone(&self) -> (res: Self)
        ensures
            res@ == self@,
    {
        Room { id: self.id.clone(), state: self.state.clone() }
    }
}

impl Room {
    /// A fresh lobby holding its single seed player, not yet connected.
    pub fn new(id: String, player: Player) -> (r: Self)
        ensures
            r@.id == id@,
            r@.state is Lobby,
            r@.state->Lobby_0.players =~= seq![
                (LobbyPlayerView { player: player@, send_channel: None }),
            ],
            r@.state->Lobby_0.last_game is None,
    {
        let mut players: Vec<LobbyPlayer> = Vec::new();
        players.push(LobbyPlayer { player, send_channel: None });
        Room { id, state: RoomState::Lobby(LobbyData { players, last_game: None }) }
    }
}

/// Announces a player joining the roster.
pub struct PlayerJoined {
    pub player: Player,
    pub room: Room,
}

/// Announces a player's subscription coming live.
pub struct PlayerConnected {
    pub player: Player,
    pub room: Room,
}

/// Announces a player's connection ending while they stay on the roster.
pub struct PlayerLeft {
    pub player: Player,
    pub room: Room,
}

/// Announces a player being removed from the roster entirely.
pub struct PlayerRemoved {
    pub player: Player,
    pub room: Room,
}

/// Carries one chat line to the room.
pub struct ChatMessage {
    pub player: Player,
    pub message: String,
}

/// Carries a game event and the room snapshot it belongs to.
pub struct GameMessage {
    pub event: GameEvents,
    pub room: Room,
}

/// Everything the server can push to a connected client.
pub enum ServerResponse {
    PlayerJoined(PlayerJoined),
    PlayerConnected(PlayerConnected),
    PlayerLeft(PlayerLeft),
    PlayerRemoved(PlayerRemoved),
    ChatMessage(ChatMessage),
    GameMessage(GameMessage),
}

/// The mathematical value of a [`ServerResponse`].
pub enum ServerResponseView {
    PlayerJoined { player: PlayerView, room: RoomView },
    PlayerConnected { player: PlayerView, room: RoomView },
    PlayerLeft { player: PlayerView, room: RoomView },
    PlayerRemoved { player: PlayerView, room: RoomView },
    ChatMessage { player: PlayerView, message: Seq<char> },
    GameMessage { event: GameEventsView, room: RoomView },
}

impl View for ServerResponse {
    type V = ServerResponseView;

    open spec fn view(&self) -> ServerResponseView {
        match self {
            ServerResponse::PlayerJoined(e) => ServerResponseView::PlayerJoined {
                player: e.player@,
                room: e.room@,
            },
            ServerResponse::PlayerConnected(e) => ServerResponseView::PlayerConnected {
                player: e.player@,
                room: e.room@,
            },
            ServerResponse::PlayerLeft(e) => ServerResponseView::PlayerLeft {
                player: e.player@,
                room: e.room@,
            },
            ServerResponse::PlayerRemoved(e) => ServerResponseView::PlayerRemoved {
                player: e.player@,
                room: e.room@,
            },
            ServerResponse::ChatMessage(e) => ServerResponseView::ChatMessage {
                player: e.player@,
                message: e.message@,
            },
            ServerResponse::GameMessage(e) => ServerResponseView::GameMessage {
                event: e.event@,
                room: e.room@,
            },
        }
    }
}

/// The first position holding the given id among plain players, searching
/// from `k`; `-1` if there is none.
pub open spec fn player_index_from(players: Seq<PlayerView>, id: Seq<char>, k: int) -> int
    decreases players.len() - k,
{
    if k < 0 || k >= players.len() {
        -1
    } else if players[k].id == id {
        k
    } else {
        player_index_from(players, id, k + 1)
    }
}

/// The first position holding the given id among plain players, or `-1`.
pub open spec fn player_index_of(players: Seq<PlayerView>, id: Seq<char>) -> int {
    player_index_from(players, id, 0)
}

/// What the first-position search promises.
pub proof fn lemma_player_index_from_bounds(players: Seq<PlayerView>, id: Seq<char>, k: int)
    requires
        0 <= k,
    ensures
        player_index_from(players, id, k) == -1 || (k <= player_index_from(players, id, k)
            < players.len() && players[player_index_from(players, id, k)].id == id),
    decreases players.len() - k,
{
    if k < players.len() && players[k].id != id {
        lemma_player_index_from_bounds(players, id, k + 1);
    }
}

proof fn lemma_player_index_of(players: Seq<PlayerView>, id: Seq<char>, k: int)
    requires
        0 <= k <= players.len(),
        forall|t: int| 0 <= t < k ==> (#[trigger] players[t]).id != id,
    ensures
        player_index_of(players, id) == player_index_from(players, id, k),
    decreases k,
{
    if k > 0 {
        lemma_player_index_of(players, id, k - 1);
    }
}

/// Finds the first plain player with the given id.
pub fn find_player(players: &Vec<Player>, id: &String) -> (r: Option<usize>)
    ensures
        r is Some <==> player_index_of(players.deep_view(), id@) >= 0,
        r is Some ==> r->Some_0 as int == player_index_of(players.deep_view(), id@),
        r is Some ==> r->Some_0 < players@.len(),
{
    let ghost ps = players.deep_view();
    let mut i: usize = 0;
    while i < players.len()
        invariant
            0 <= i <= players@.len(),
            ps == players.deep_view(),
            ps.len() == players@.len(),
            forall|t: int| 0 <= t < i ==> (#[trigger] ps[t]).id != id@,
        decreases players@.len() - i,
    {
        if players[i].id == *id {
            proof {
                assert(ps[i as int].id == id@);
                lemma_player_index_of(ps, id@, i as int);
            }
            return Some(i);
        }
        proof {
            assert(ps[i as int].id != id@);
        }
        i += 1;
    }
    proof {
        lemma_player_index_of(ps, id@, players@.len() as int);
    }
    None
}

/// The most roster entries a room will hold: far beyond any real session,
/// and small enough that every index computation fits its type.
pub open spec fn roster_cap() -> int {
    0x7FFF_FFFF
}

/// The first lobby position holding the given id, searching from `k`;
/// `-1` if there is none.
pub open spec fn lobby_index_from(players: Seq<LobbyPlayerView>, id: Seq<char>, k: int) -> int
    decreases players.len() - k,
{
    if k < 0 || k >= players.len() {
        -1
    } else if players[k].player.id == id {
        k
    } else {
        lobby_index_from(players, id, k + 1)
    }
}

/// The first lobby position holding the given id, or `-1`.
pub open spec fn lobby_index_of(players: Seq<LobbyPlayerView>, id: Seq<char>) -> int {
    lobby_index_from(players, id, 0)
}

proof fn lemma_lobby_index_of(players: Seq<LobbyPlayerView>, id: Seq<char>, k: int)
    requires
        0 <= k <= players.len(),
        forall|t: int| 0 <= t < k ==> (#[trigger] players[t]).player.id != id,
    ensures
        lobby_index_of(players, id) == lobby_index_from(players, id, k),
    decreases k,
{
    if k > 0 {
        lemma_lobby_index_of(players, id, k - 1);
    }
}

/// What the first-position lobby search promises.
pub proof fn lemma_lobby_index_from_bounds(players: Seq<LobbyPlayerView>, id: Seq<char>, k: int)
    requires
        0 <= k,
    ensures
        lobby_index_from(players, id, k) == -1 || (k <= lobby_index_from(players, id, k)
            < players.len() && players[lobby_index_from(players, id, k)].player.id == id),
    decreases players.len() - k,
{
    if k < players.len() && players[k].player.id != id {
        lemma_lobby_index_from_bounds(players, id, k + 1);
    }
}

/// Finds the first lobby entry with the given id.
pub fn find_lobby_player(players: &Vec<LobbyPlayer>, id: &String) -> (r: Option<usize>)
    ensures
        r is Some <==> lobby_index_of(players.deep_view(), id@) >= 0,
        r is Some ==> r->Some_0 as int == lobby_index_of(players.deep_view(), id@),
        r is Some ==> r->Some_0 < players@.len(),
{
    let ghost ps = players.deep_view();
    let mut i: usize = 0;
    while i < players.len()
        invariant
            0 <= i <= players@.len(),
            ps == players.deep_view(),
            ps.len() == players@.len(),
            forall|t: int| 0 <= t < i ==> (#[trigger] ps[t]).player.id != id@,
        decreases players@.len() - i,
    {
        if players[i].player.id == *id {
            proof {
                assert(ps[i as int].player.id == id@);
                lemma_lobby_index_of(ps, id@, i as int);
            }
            return Some(i);
        }
        proof {
            assert(ps[i as int].player.id != id@);
        }
        i += 1;
    }
    proof {
        lemma_lobby_index_of(ps, id@, players@.len() as int);
    }
    None
}

/// A lobby roster after a join: unchanged when the id is already present
/// or the roster is at capacity, else extended by a fresh unconnected
/// entry.
pub open spec fn spec_lobby_add(players: Seq<LobbyPlayerView>, p: PlayerView) -> Seq<
    LobbyPlayerView,
> {
    if lobby_index_of(players, p.id) >= 0 {
        players
    } else if players.len() < roster_cap() {
        players.push((LobbyPlayerView { player: p, send_channel: None }))
    } else {
        players
    }
}

impl RoomStateView {
    /// A well-formed room state: the roster is within capacity and, in
    /// game mode, matches the active variant.
    pub open spec fn wf(self) -> bool {
        match self {
            RoomStateView::Lobby(d) => d.players.len() <= roster_cap(),
            RoomStateView::Game(d) => game_wf(d.game, d.players),
        }
    }

    /// Whether no roster entry has a live channel: the room's destruction
    /// criterion.
    pub open spec fn spec_is_empty(self) -> bool {
        match self {
            RoomStateView::Lobby(d) => forall|k: int|
                0 <= k < d.players.len() ==> (#[trigger] d.players[k]).send_channel is None,
            RoomStateView::Game(d) => forall|k: int|
                0 <= k < d.players.len() ==> (#[trigger] d.players[k]).send_channel is None,
        }
    }

    /// The first roster position holding the given id, or `-1`.
    pub open spec fn index_of(self, id: Seq<char>) -> int {
        match self {
            RoomStateView::Lobby(d) => lobby_index_of(d.players, id),
            RoomStateView::Game(d) => game_index_of(d.players, id),
        }
    }

    /// The identity stored at the first roster position holding `id`.
    pub open spec fn player_at(self, i: int) -> PlayerView {
        match self {
            RoomStateView::Lobby(d) => d.players[i].player,
            RoomStateView::Game(d) => d.players[i].player,
        }
    }

    /// The roster's length, whichever mode the room is in.
    pub open spec fn roster_len(self) -> int {
        match self {
            RoomStateView::Lobby(d) => d.players.len() as int,
            RoomStateView::Game(d) => d.players.len() as int,
        }
    }

    /// The room state with the entry at position `i` given channel `ch`.
    pub open spec fn with_channel(self, i: int, ch: Option<u64>) -> RoomStateView {
        match self {
            RoomStateView::Lobby(d) => RoomStateView::Lobby(
                (LobbyDataView {
                    players: d.players.update(
                        i,
                        (LobbyPlayerView { player: d.players[i].player, send_channel: ch }),
                    ),
                    last_game: d.last_game,
                }),
            ),
            RoomStateView::Game(d) => RoomStateView::Game(
                (GameDataView {
                    players: d.players.update(
                        i,
                        (GamePlayerView {
                            player: d.players[i].player,
                            data: d.players[i].data,
                            send_channel: ch,
                        }),
                    ),
                    game: d.game,
                }),
            ),
        }
    }

    /// The room state with the entry at position `i` removed.
    pub open spec fn without_entry(self, i: int) -> RoomStateView {
        match self {
            RoomStateView::Lobby(d) => RoomStateView::Lobby(
                (LobbyDataView { players: d.players.remove(i), last_game: d.last_game }),
            ),
            RoomStateView::Game(d) => RoomStateView::Game(
                (GameDataView { players: d.players.remove(i), game: d.game }),
            ),
        }
    }

    /// The channels of the connected roster entries, in roster order: the
    /// targets of a broadcast.
    pub open spec fn spec_recipients(self) -> Seq<u64> {
        match self {
            RoomStateView::Lobby(d) => lobby_recipients(d.players),
            RoomStateView::Game(d) => game_recipients(d.players),
        }
    }
}

/// The channels of the connected lobby entries, in roster order.
pub open spec fn lobby_recipients(players: Seq<LobbyPlayerView>) -> Seq<u64>
    decreases players.len(),
{
    if players.len() == 0 {
        Seq::empty()
    } else {
        lobby_recipients(players.drop_last()) + (match players.last().send_channel {
            Some(ch) => seq![ch],
            None => Seq::empty(),
        })
    }
}

/// The channels of the connected game entries, in roster order.
pub open spec fn game_recipients(players: Seq<GamePlayerView>) -> Seq<u64>
    decreases players.len(),
{
    if players.len() == 0 {
        Seq::empty()
    } else {
        game_recipients(players.drop_last()) + (match players.last().send_channel {
            Some(ch) => seq![ch],
            None => Seq::empty(),
        })
    }
}

/// The room state after the end-of-game check: a finished game becomes a
/// lobby of the same players, all channels cleared, and a ranked summary
/// of the departing game is archived if it had properly begun.
pub open spec fn spec_room_after_game_end(s: RoomStateView) -> RoomStateView {
    match s {
        RoomStateView::Game(d) => if spec_game_is_end(d.game, d.players) {
            let cleared = d.players.map_values(
                |p: GamePlayerView|
                    GamePlayerView { player: p.player, data: p.data, send_channel: None },
            );
            let lobby_players = d.players.map_values(
                |p: GamePlayerView| LobbyPlayerView { player: p.player, send_channel: None },
            );
            RoomStateView::Lobby(
                (LobbyDataView {
                    players: lobby_players,
                    last_game: if spec_game_is_running(d.game) {
                        Some(
                            (LastGameView {
                                last_game: GameDataView { players: cleared, game: d.game },
                                leader_board: spec_game_rankings(d.game, cleared),
                            }),
                        )
                    } else {
                        None
                    },
                }),
            )
        } else {
            s
        },
        RoomStateView::Lobby(_) => s,
    }
}

impl RoomState {
    /// Admits a player: a lobby adds them (idempotently), a running game
    /// admits only returning members.  A lobby roster at its capacity of
    /// `0x7FFF_FFFF` entries accepts the call but adds nobody, as
    /// [`spec_lobby_add`] states; the bound exists only so that roster
    /// index arithmetic fits its types.
    pub fn add_player(&mut self, player: Player) -> (r: Result<(), Error>)
        ensures
            old(self)@ is Lobby ==> r is Ok && final(self)@ is Lobby && final(self)@->Lobby_0.players == spec_lobby_add(old(self)@->Lobby_0.players, player@) && final(self)@->Lobby_0.last_game == old(self)@->Lobby_0.last_game,
            old(self)@ is Game ==> final(self)@ == old(self)@ && (r is Ok <==> game_index_of(
                old(self)@->Game_0.players,
                player@.id,
            ) >= 0) && (r is Err ==> r->Err_0 == Error::GameAlreadyRunning),
    {
        match self {
            RoomState::Lobby(lobbydata) => {
                let ghost ps0 = lobbydata.players.deep_view();
                match find_lobby_player(&lobbydata.players, &player.id) {
                    Some(_) => Ok(()),
                    None => {
                        if lobbydata.players.len() < 0x7FFF_FFFF {
                            let ghost pre = lobbydata.players.deep_view();
                            let entry = LobbyPlayer { player, send_channel: None };
                            let ghost ev = entry@;
                            lobbydata.players.push(entry);
                            proof {
                                assert(lobbydata.players.deep_view() =~= pre.push(ev));
                            }
                        }
                        Ok(())
                    },
                }
            },
            RoomState::Game(data) => {
                match crate::logic::find_game_player(&data.players, &player.id) {
                    Some(_) => Ok(()),
                    None => Err(Error::GameAlreadyRunning),
                }
            },
        }
    }

    /// True exactly when no roster entry has a live channel.
    #[verifier::loop_isolation(false)]
    pub fn is_empty(&self) -> (r: bool)
        ensures
            r == self@.spec_is_empty(),
    {
        match self {
            RoomState::Lobby(data) => {
                let ghost ps = data.players.deep_view();
                let mut i: usize = 0;
                while i < data.players.len()
                    invariant
                        0 <= i <= ps.len(),
                        forall|t: int| 0 <= t < i ==> (#[trigger] ps[t]).send_channel is None,
                    decreases ps.len() - i,
                {
                    proof {
                        assert(data.players@[i as int]@ == ps[i as int]);
                    }
                    if data.players[i].send_channel.is_some() {
                        return false;
                    }
                    i += 1;
                }
                true
            },
            RoomState::Game(data) => {
                let ghost ps = data.players.deep_view();
                let mut i: usize = 0;
                while i < data.players.len()
                    invariant
                        0 <= i <= ps.len(),
                        forall|t: int| 0 <= t < i ==> (#[trigger] ps[t]).send_channel is None,
                    decreases ps.len() - i,
                {
                    proof {
                        assert(data.players@[i as int]@ == ps[i as int]);
                    }
                    if data.players[i].send_channel.is_some() {
                        return false;
                    }
                    i += 1;
                }
                true
            },
        }
    }

    /// Attaches a live channel to the named player, in either mode.
    pub fn set_player_channel(&mut self, player_id: String, channel: u64) -> (r: Result<
        (),
        Error,
    >)
        ensures
            r is Ok <==> old(self)@.index_of(player_id@) >= 0,
            r is Err ==> final(self)@ == old(self)@ && r->Err_0 == Error::PlayerNotFound,
            r is Ok ==> final(self)@ == old(self)@.with_channel(
                old(self)@.index_of(player_id@),
                Some(channel),
            ),
    {
        match self {
            RoomState::Lobby(data) => {
                let ghost ps0 = data.players.deep_view();
                match find_lobby_player(&data.players, &player_id) {
                    Some(i) => {
                        let p = data.players[i].player.clone();
                        data.players[i] = LobbyPlayer { player: p, send_channel: Some(channel) };
                        proof {
                            assert(data.players.deep_view() =~= ps0.update(
                                i as int,
                                data.players.deep_view()[i as int],
                            ));
                        }
                        Ok(())
                    },
                    None => Err(Error::PlayerNotFound),
                }
            },
            RoomState::Game(data) => {
                let ghost ps0 = data.players.deep_view();
                match crate::logic::find_game_player(&data.players, &player_id) {
                    Some(i) => {
                        let p = data.players[i].player.clone();
                        let d = data.players[i].data.clone();
                        data.players[i] = GamePlayer {
                            player: p,
                            data: d,
                            send_channel: Some(channel),
                        };
                        proof {
                            assert(data.players.deep_view() =~= ps0.update(
                                i as int,
                                data.players.deep_view()[i as int],
                            ));
                        }
                        Ok(())
                    },
                    None => Err(Error::PlayerNotFound),
                }
            },
        }
    }

    /// Clears the named player's channel, keeping their roster entry.
    pub fn disconnect_player(&mut self, player_id: &String) -> (r: Result<(), Error>)
        ensures
            r is Ok <==> old(self)@.index_of(player_id@) >= 0,
            r is Err ==> final(self)@ == old(self)@ && r->Err_0 == Error::PlayerNotFound,
            r is Ok ==> final(self)@ == old(self)@.with_channel(
                old(self)@.index_of(player_id@),
                None,
            ),
    {
        match self {
            RoomState::Lobby(data) => {
                let ghost ps0 = data.players.deep_view();
                match find_lobby_player(&data.players, player_id) {
                    Some(i) => {
                        let p = data.players[i].player.clone();
                        data.players[i] = LobbyPlayer { player: p, send_channel: None };
                        proof {
                            assert(data.players.deep_view() =~= ps0.update(
                                i as int,
                                data.players.deep_view()[i as int],
                            ));
                        }
                        Ok(())
                    },
                    None => Err(Error::PlayerNotFound),
                }
            },
            RoomState::Game(data) => {
                let ghost ps0 = data.players.deep_view();
                match crate::logic::find_game_player(&data.players, player_id) {
                    Some(i) => {
                        let p = data.players[i].player.clone();
                        let d = data.players[i].data.clone();
                        data.players[i] = GamePlayer { player: p, data: d, send_channel: None };
                        proof {
                            assert(data.players.deep_view() =~= ps0.update(
                                i as int,
                                data.players.deep_view()[i as int],
                            ));
                        }
                        Ok(())
                    },
                    None => Err(Error::PlayerNotFound),
                }
            },
        }
    }

    /// Deletes the named player's roster entry and returns their identity.
    pub fn remove_player(&mut self, player_id: &String) -> (r: Result<Player, Error>)
        ensures
            r is Ok <==> old(self)@.index_of(player_id@) >= 0,
            r is Err ==> final(self)@ == old(self)@ && r->Err_0 == Error::PlayerNotFound,
            r is Ok ==> final(self)@ == old(self)@.without_entry(old(self)@.index_of(player_id@))
                && r->Ok_0@ == old(self)@.player_at(old(self)@.index_of(player_id@)),
    {
        match self {
            RoomState::Lobby(data) => {
                let ghost ps0 = data.players.deep_view();
                match find_lobby_player(&data.players, player_id) {
                    Some(i) => {
                        let entry = data.players.remove(i);
                        proof {
                            assert(data.players.deep_view() =~= ps0.remove(i as int));
                        }
                        Ok(entry.player)
                    },
                    None => Err(Error::PlayerNotFound),
                }
            },
            RoomState::Game(data) => {
                let ghost ps0 = data.players.deep_view();
                match crate::logic::find_game_player(&data.players, player_id) {
                    Some(i) => {
                        let entry = data.players.remove(i);
                        proof {
                            assert(data.players.deep_view() =~= ps0.remove(i as int));
                        }
                        Ok(entry.player)
                    },
                    None => Err(Error::PlayerNotFound),
                }
            },
        }
    }

    /// The identity at the first roster position holding the id, if any.
    pub fn get_player(&self, player_id: &String) -> (r: Option<&Player>)
        ensures
            r is Some <==> self@.index_of(player_id@) >= 0,
            r is Some ==> r->Some_0@ == self@.player_at(self@.index_of(player_id@)),
    {
        match self {
            RoomState::Lobby(data) => match find_lobby_player(&data.players, player_id) {
                Some(i) => {
                    proof {
                        assert(data.players@[i as int]@ == data.players.deep_view()[i as int]);
                    }
                    Some(&data.players[i].player)
                },
                None => None,
            },
            RoomState::Game(data) => match crate::logic::find_game_player(
                &data.players,
                player_id,
            ) {
                Some(i) => {
                    proof {
                        assert(data.players@[i as int]@ == data.players.deep_view()[i as int]);
                    }
                    Some(&data.players[i].player)
                },
                None => None,
            },
        }
    }

    /// The game-mode data, if a game is active.
    pub fn as_game(&self) -> (r: Option<&GameData>)
        ensures
            r is Some <==> self@ is Game,
            r is Some ==> r->Some_0@ == self@->Game_0,
    {
        if let Self::Game(v) = self {
            Some(v)
        } else {
            None
        }
    }

    /// The channels of the connected roster entries, in roster order.
    #[verifier::loop_isolation(false)]
    pub fn recipients(&self) -> (r: Vec<u64>)
        ensures
            r@ == self@.spec_recipients(),
    {
        let mut out: Vec<u64> = Vec::new();
        match self {
            RoomState::Lobby(data) => {
                let ghost ps = data.players.deep_view();
                let mut i: usize = 0;
                while i < data.players.len()
                    invariant
                        0 <= i <= ps.len(),
                        out@ == lobby_recipients(ps.subrange(0, i as int)),
                    decreases ps.len() - i,
                {
                    proof {
                        assert(data.players@[i as int]@ == ps[i as int]);
                        assert(ps.subrange(0, i as int + 1).drop_last() =~= ps.subrange(
                            0,
                            i as int,
                        ));
                        assert(ps.subrange(0, i as int + 1).last() == ps[i as int]);
                    }
                    if let Some(ch) = data.players[i].send_channel {
                        out.push(ch);
                        proof {
                            assert(out@ =~= lobby_recipients(ps.subrange(0, i as int + 1)));
                        }
                    } else {
                        proof {
                            assert(out@ =~= lobby_recipients(ps.subrange(0, i as int + 1)));
                        }
                    }
                    i += 1;
                }
                proof {
                    assert(ps.subrange(0, ps.len() as int) =~= ps);
                }
            },
            RoomState::Game(data) => {
                let ghost ps = data.players.deep_view();
                let mut i: usize = 0;
                while i < data.players.len()
                    invariant
                        0 <= i <= ps.len(),
                        out@ == game_recipients(ps.subrange(0, i as int)),
                    decreases ps.len() - i,
                {
                    proof {
                        assert(data.players@[i as int]@ == ps[i as int]);
                        assert(ps.subrange(0, i as int + 1).drop_last() =~= ps.subrange(
                            0,
                            i as int,
                        ));
                        assert(ps.subrange(0, i as int + 1).last() == ps[i as int]);
                    }
                    if let Some(ch) = data.players[i].send_channel {
                        out.push(ch);
                        proof {
                            assert(out@ =~= game_recipients(ps.subrange(0, i as int + 1)));
                        }
                    } else {
                        proof {
                            assert(out@ =~= game_recipients(ps.subrange(0, i as int + 1)));
                        }
                    }
                    i += 1;
                }
                proof {
                    assert(ps.subrange(0, ps.len() as int) =~= ps);
                }
            },
        }
        out
    }

    /// Evaluates the end-of-game condition and, if it holds, archives the
    /// departing game and reverts the room to a lobby of the same players
    /// with every channel cleared.
    pub fn handle_game_end(&mut self)
        requires
            old(self)@.wf(),
        ensures
            final(self)@.wf(),
            final(self)@ == spec_room_after_game_end(old(self)@),
    {
        let ghost s0 = self@;
        let is_end = match &*self {
            RoomState::Game(d) => d.game.is_game_end(&d.players),
            RoomState::Lobby(_) => false,
        };
        if !is_end {
            return;
        }
        let new_state = match &*self {
            RoomState::Game(d) => {
                let ghost ps = d.players.deep_view();
                let cleared = cleared_game_players(&d.players);
                let ghost cv = cleared.deep_view();
                proof {
                    assert forall|k: int| 0 <= k < cv.len() implies (#[trigger] cv[k]).data
                        == ps[k].data && cv[k].player == ps[k].player by {}
                    assert(game_wf(d.game@, cv)) by {
                        match d.game@ {
                            crate::games::GameView::Bingo(_) => {
                                assert forall|k: int|
                                    0 <= k < cv.len() && crate::bingo::player_board(
                                        #[trigger] cv[k],
                                    ) is Some implies crate::bingo::board_wf(
                                    crate::bingo::player_board(cv[k])->Some_0,
                                ) by {
                                    assert(crate::bingo::player_board(cv[k])
                                        == crate::bingo::player_board(ps[k]));
                                }
                            },
                            crate::games::GameView::Boxes(_) => {},
                            crate::games::GameView::Bluff(_) => {},
                        }
                    }
                }
                let running = d.game.is_game_running();
                let last_game = if running {
                    let leader_board = d.game.get_rankings(&cleared);
                    let archived = GameData { players: cleared, game: d.game.clone() };
                    Some(LastGame { last_game: archived, leader_board })
                } else {
                    None
                };
                let lobby_players = lobby_players_of(&d.players);
                RoomState::Lobby(LobbyData { players: lobby_players, last_game })
            },
            RoomState::Lobby(_) => {
                proof {
                    assert(false);
                }
                return;
            },
        };
        *self = new_state;
        proof {
            match s0 {
                RoomStateView::Game(d) => {
                    let cleared = d.players.map_values(
                        |p: GamePlayerView|
                            GamePlayerView { player: p.player, data: p.data, send_channel: None },
                    );
                    let lobby_players = d.players.map_values(
                        |p: GamePlayerView|
                            LobbyPlayerView { player: p.player, send_channel: None },
                    );
                    assert(self@ is Lobby);
                    assert(self@->Lobby_0.players =~= lobby_players);
                    if spec_game_is_running(d.game) {
                        assert(self@->Lobby_0.last_game->Some_0.last_game.players =~= cleared);
                    }
                    assert(self@ =~~= spec_room_after_game_end(s0));
                },
                RoomStateView::Lobby(_) => {},
            }
        }
    }
}

/// The game roster with every channel cleared, entry by entry.
fn cleared_game_players(players: &Vec<GamePlayer>) -> (res: Vec<GamePlayer>)
    ensures
        res.deep_view() == players.deep_view().map_values(
            |p: GamePlayerView| GamePlayerView { player: p.player, data: p.data, send_channel: None },
        ),
{
    let ghost ps = players.deep_view();
    let mut out: Vec<GamePlayer> = Vec::new();
    let mut i: usize = 0;
    while i < players.len()
        invariant
            0 <= i <= ps.len(),
            ps == players.deep_view(),
            ps.len() == players@.len(),
            out@.len() == i,
            forall|k: int| 0 <= k < i ==> #[trigger] out.deep_view()[k] == (GamePlayerView {
                player: ps[k].player,
                data: ps[k].data,
                send_channel: None,
            }),
        decreases ps.len() - i,
    {
        let p = players[i].player.clone();
        let d = players[i].data.clone();
        let ghost pre = out.deep_view();
        let entry = GamePlayer { player: p, data: d, send_channel: None };
        let ghost ev = entry@;
        out.push(entry);
        proof {
            assert(out.deep_view() =~= pre.push(ev));
            assert(players@[i as int]@ == ps[i as int]);
        }
        i += 1;
    }
    proof {
        assert(out.deep_view() =~= ps.map_values(
            |p: GamePlayerView| GamePlayerView { player: p.player, data: p.data, send_channel: None },
        ));
    }
    out
}

/// A lobby roster holding the same players as a game roster, all
/// channels cleared.
fn lobby_players_of(players: &Vec<GamePlayer>) -> (res: Vec<LobbyPlayer>)
    ensures
        res.deep_view() == players.deep_view().map_values(
            |p: GamePlayerView| LobbyPlayerView { player: p.player, send_channel: None },
        ),
{
    let ghost ps = players.deep_view();
    let mut out: Vec<LobbyPlayer> = Vec::new();
    let mut i: usize = 0;
    while i < players.len()
        invariant
            0 <= i <= ps.len(),
            ps == players.deep_view(),
            ps.len() == players@.len(),
            out@.len() == i,
            forall|k: int| 0 <= k < i ==> #[trigger] out.deep_view()[k] == (LobbyPlayerView {
                player: ps[k].player,
                send_channel: None,
            }),
        decreases ps.len() - i,
    {
        let p = players[i].player.clone();
        let ghost pre = out.deep_view();
        let entry = LobbyPlayer { player: p, send_channel: None };
        let ghost ev = entry@;
        out.push(entry);
        proof {
            assert(out.deep_view() =~= pre.push(ev));
            assert(players@[i as int]@ == ps[i as int]);
        }
        i += 1;
    }
    proof {
        assert(out.deep_view() =~= ps.map_values(
            |p: GamePlayerView| LobbyPlayerView { player: p.player, send_channel: None },
        ));
    }
    out
}

/// Removing a roster entry keeps a room state well formed.
pub proof fn lemma_wf_without_entry(s: RoomStateView, i: int)
    requires
        s.wf(),
        0 <= i < s.roster_len(),
    ensures
        s.without_entry(i).wf(),
{
    match s {
        RoomStateView::Lobby(d) => {},
        RoomStateView::Game(d) => {
            let ps = d.players;
            let ps1 = ps.remove(i);
            assert forall|k: int| 0 <= k < ps1.len() implies #[trigger] ps1[k] == (if k < i {
                ps[k]
            } else {
                ps[k + 1]
            }) by {}
            match d.game {
                crate::games::GameView::Bingo(_) => {
                    assert forall|k: int| 0 <= k < ps1.len() implies (#[trigger] ps1[k]).data
                        is BingoPlayerData by {}
                    assert forall|k: int|
                        0 <= k < ps1.len() && crate::bingo::player_board(#[trigger] ps1[k])
                            is Some implies crate::bingo::board_wf(
                        crate::bingo::player_board(ps1[k])->Some_0,
                    ) by {
                        if k < i {
                            assert(crate::bingo::player_board(ps[k]) is Some);
                        } else {
                            assert(crate::bingo::player_board(ps[k + 1]) is Some);
                        }
                    }
                },
                crate::games::GameView::Boxes(_) => {
                    assert forall|k: int| 0 <= k < ps1.len() implies (#[trigger] ps1[k]).data
                        is BoxesPlayerData by {}
                },
                crate::games::GameView::Bluff(_) => {
                    assert forall|k: int| 0 <= k < ps1.len() implies (#[trigger] ps1[k]).data
                        is BluffPlayerData by {}
                },
            }
        },
    }
}

/// Changing one entry's channel keeps a room state well formed.
pub proof fn lemma_wf_with_channel(s: RoomStateView, i: int, ch: Option<u64>)
    requires
        s.wf(),
        0 <= i < s.roster_len(),
    ensures
        s.with_channel(i, ch).wf(),
{
    match s {
        RoomStateView::Lobby(d) => {},
        RoomStateView::Game(d) => {
            let ps = d.players;
            let ps1 = s.with_channel(i, ch)->Game_0.players;
            assert forall|k: int| 0 <= k < ps1.len() implies (#[trigger] ps1[k]).data
                == ps[k].data by {}
            match d.game {
                crate::games::GameView::Bingo(_) => {
                    assert forall|k: int| 0 <= k < ps1.len() implies (#[trigger] ps1[k]).data
                        is BingoPlayerData by {}
                    assert forall|k: int|
                        0 <= k < ps1.len() && crate::bingo::player_board(#[trigger] ps1[k])
                            is Some implies crate::bingo::board_wf(
                        crate::bingo::player_board(ps1[k])->Some_0,
                    ) by {
                        assert(crate::bingo::player_board(ps1[k]) == crate::bingo::player_board(
                            ps[k],
                        ));
                    }
                },
                crate::games::GameView::Boxes(_) => {
                    assert forall|k: int| 0 <= k < ps1.len() implies (#[trigger] ps1[k]).data
                        is BoxesPlayerData by {}
                },
                crate::games::GameView::Bluff(_) => {
                    assert forall|k: int| 0 <= k < ps1.len() implies (#[trigger] ps1[k]).data
                        is BluffPlayerData by {}
                },
            }
        },
    }
}

/// Reassigning the turn keeps a game-mode room state well formed.
pub proof fn lemma_wf_change_turn(d: GameDataView, t: Seq<char>)
    requires
        game_wf(d.game, d.players),
    ensures
        game_wf(crate::games::spec_game_change_turn(d.game, t), d.players),
{
    match d.game {
        crate::games::GameView::Bingo(_) => {},
        crate::games::GameView::Boxes(_) => {},
        crate::games::GameView::Bluff(_) => {},
    }
}

/// What the roster search of either mode promises.
pub proof fn lemma_state_index_bounds(s: RoomStateView, id: Seq<char>)
    ensures
        s.index_of(id) == -1 || (0 <= s.index_of(id) < s.roster_len() && s.player_at(
            s.index_of(id),
        ).id == id),
{
    match s {
        RoomStateView::Lobby(d) => {
            lemma_lobby_index_from_bounds(d.players, id, 0);
        },
        RoomStateView::Game(d) => {
            crate::logic::lemma_game_index_from_bounds(d.players, id, 0);
        },
    }
}

/// A room is always in exactly one of its two modes: lobby or game,
/// never both and never neither.
pub proof fn lemma_room_state_modes(s: RoomStateView)
    ensures
        s is Lobby <==> !(s is Game),
{
}

proof fn lemma_lobby_index_push_found(s: Seq<LobbyPlayerView>, x: LobbyPlayerView, k: int)
    requires
        0 <= k <= s.len(),
    ensures
        lobby_index_from(s.push(x), x.player.id, k) >= 0,
    decreases s.len() - k,
{
    if k == s.len() {
        assert(s.push(x)[k] == x);
    } else {
        assert(s.push(x)[k] == s[k]);
        if s[k].player.id != x.player.id {
            lemma_lobby_index_push_found(s, x, k + 1);
        }
    }
}

/// Joining a lobby is idempotent: adding the same player twice yields
/// the same roster as adding them once.
pub proof fn lemma_lobby_add_idempotent(players: Seq<LobbyPlayerView>, p: PlayerView)
    ensures
        spec_lobby_add(spec_lobby_add(players, p), p) == spec_lobby_add(players, p),
{
    if lobby_index_of(players, p.id) >= 0 {
    } else if players.len() < roster_cap() {
        let entry = LobbyPlayerView { player: p, send_channel: None };
        lemma_lobby_index_push_found(players, entry, 0);
    }
}

} // verus!
