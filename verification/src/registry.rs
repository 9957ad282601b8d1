//! The room registry: the single process-wide mapping from room id to
//! room, and the client-boundary operations that mutate it.
//!
//! Each operation validates before it commits, so a failure never leaves
//! a room partially updated.  The caller is expected to serialise access
//! (one writer at a time) and to fan broadcasts out to the returned
//! snapshot's recipients after releasing its lock.

use vstd::prelude::*;

use crate::data::{lemma_state_index_bounds, lemma_wf_change_turn, lemma_wf_with_channel,
    lemma_wf_without_entry, spec_room_after_game_end, LobbyPlayerView, Player, PlayerView, Room, RoomState, RoomStateView,
    RoomView};
use crate::games::{spec_game_can_change_turn, spec_game_change_turn, spec_game_next_turn,
    GameView};
use crate::logic::{event_wf, GameDataView, GamePlayerView, PlayerEvents};
use crate::utils::generate_rand_string;
use crate::Error;

verus! {

/// The registry of live rooms, keyed by their ids.
pub struct Storage {
    pub private_rooms: Vec<Room>,
}

impl View for Storage {
    type V = Seq<RoomView>;

    open spec fn view(&self) -> Seq<RoomView> {
        self.private_rooms.deep_view()
    }
}

/// The first position holding the given room id, searching from `k`;
/// `-1` if there is none.
pub open spec fn room_index_from(rooms: Seq<RoomView>, id: Seq<char>, k: int) -> int
    decreases rooms.len() - k,
{
    if k < 0 || k >= rooms.len() {
        -1
    } else if rooms[k].id == id {
        k
    } else {
        room_index_from(rooms, id, k + 1)
    }
}

/// The first position holding the given room id, or `-1`.
pub open spec fn room_index_of(rooms: Seq<RoomView>, id: Seq<char>) -> int {
    room_index_from(rooms, id, 0)
}

proof fn lemma_room_index_of(rooms: Seq<RoomView>, id: Seq<char>, k: int)
    requires
        0 <= k <= rooms.len(),
        forall|t: int| 0 <= t < k ==> (#[trigger] rooms[t]).id != id,
    ensures
        room_index_of(rooms, id) == room_index_from(rooms, id, k),
    decreases k,
{
    if k > 0 {
        lemma_room_index_of(rooms, id, k - 1);
    }
}

/// What the first-position room search promises.
pub proof fn lemma_room_index_from_bounds(rooms: Seq<RoomView>, id: Seq<char>, k: int)
    requires
        0 <= k,
    ensures
        room_index_from(rooms, id, k) == -1 || (k <= room_index_from(rooms, id, k) < rooms.len()
            && rooms[room_index_from(rooms, id, k)].id == id),
    decreases rooms.len() - k,
{
    if k < rooms.len() && rooms[k].id != id {
        lemma_room_index_from_bounds(rooms, id, k + 1);
    }
}

/// Finds the first room with the given id.
fn find_room(rooms: &Vec<Room>, id: &String) -> (r: Option<usize>)
    ensures
        r is Some <==> room_index_of(rooms.deep_view(), id@) >= 0,
        r is Some ==> r->Some_0 as int == room_index_of(rooms.deep_view(), id@),
        r is Some ==> r->Some_0 < rooms@.len(),
{
    let ghost rs = rooms.deep_view();
    let mut i: usize = 0;
    while i < rooms.len()
        invariant
            0 <= i <= rooms@.len(),
            rs == rooms.deep_view(),
            rs.len() == rooms@.len(),
            forall|t: int| 0 <= t < i ==> (#[trigger] rs[t]).id != id@,
        decreases rooms@.len() - i,
    {
        if rooms[i].id == *id {
            proof {
                assert(rs[i as int].id == id@);
                lemma_room_index_of(rs, id@, i as int);
            }
            return Some(i);
        }
        proof {
            assert(rooms@[i as int]@ == rs[i as int]);
        }
        i += 1;
    }
    proof {
        lemma_room_index_of(rs, id@, rooms@.len() as int);
    }
    None
}

/// The verdict of a snapshot-returning operation, stripped of its
/// snapshot.
pub open spec fn unit_verdict(r: Result<Room, Error>) -> Result<(), Error> {
    if r is Ok {
        Ok(())
    } else {
        Err(r->Err_0)
    }
}

/// The room at the first position holding the given id.
pub open spec fn room_at(rooms: Seq<RoomView>, id: Seq<char>) -> RoomView {
    rooms[room_index_of(rooms, id)]
}

/// Whether a board submission reaches the running Bingo game of the
/// named room: the room exists, runs Bingo, and the grid is valid for
/// its board size.
pub open spec fn spec_board_accepted(rooms: Seq<RoomView>, room_id: Seq<char>, b: Seq<Seq<u32>>) -> bool {
    &&& room_index_of(rooms, room_id) >= 0
    &&& room_at(rooms, room_id).state is Game
    &&& room_at(rooms, room_id).state->Game_0.game is Bingo
    &&& crate::bingo::valid_board(
        b,
        room_at(rooms, room_id).state->Game_0.game->Bingo_0.board_size as int,
    )
}

/// Every room in the registry is well formed, and no two rooms share an
/// id: a lookup by id names at most one room.
pub open spec fn storage_wf(rooms: Seq<RoomView>) -> bool {
    &&& (forall|k: int| 0 <= k < rooms.len() ==> (#[trigger] rooms[k]).state.wf())
    &&& (forall|a: int, b: int|
        0 <= a < b < rooms.len() ==> (#[trigger] rooms[a]).id != (#[trigger] rooms[b]).id)
}

/// A failed search means no room holds the id at any position from `k`.
proof fn lemma_room_index_not_found(rooms: Seq<RoomView>, id: Seq<char>, k: int)
    requires
        0 <= k,
        room_index_from(rooms, id, k) == -1,
    ensures
        forall|t: int| k <= t < rooms.len() ==> (#[trigger] rooms[t]).id != id,
    decreases rooms.len() - k,
{
    if k < rooms.len() {
        lemma_room_index_not_found(rooms, id, k + 1);
    }
}

impl Storage {
    /// An empty registry.
    pub fn new() -> (r: Self)
        ensures
            r@ =~= Seq::<RoomView>::empty(),
    {
        let private_rooms: Vec<Room> = Vec::new();
        proof {
            assert(private_rooms.deep_view() =~= Seq::<RoomView>::empty());
        }
        Storage { private_rooms }
    }

    /// Creates a room under a freshly drawn id, seeded with one player.
    /// The rare collision with an existing id is reported, not retried.
    pub fn create_lobby(&mut self, player_id: String, player_name: String) -> (r: Result<
        String,
        Error,
    >)
        requires
            storage_wf(old(self)@),
        ensures
            storage_wf(final(self)@),
            r is Err ==> final(self)@ == old(self)@ && r->Err_0 == Error::CannotCreate
                && (exists|k: int|
                0 <= k < old(self)@.len() && (#[trigger] old(self)@[k]).id.len() == 6),
            r is Ok ==> r->Ok_0@.len() == 6 && room_index_of(old(self)@, r->Ok_0@) < 0 && final(self)@ =~= old(self)@.push(
                (RoomView {
                    id: r->Ok_0@,
                    state: RoomStateView::Lobby(
                        (crate::data::LobbyDataView {
                            players: seq![
                                (LobbyPlayerView {
                                    player: (PlayerView { id: player_id@, name: player_name@ }),
                                    send_channel: None,
                                }),
                            ],
                            last_game: None,
                        }),
                    ),
                }),
            ),
    {
        let room_id = generate_rand_string(6);
        match find_room(&self.private_rooms, &room_id) {
            Some(_) => {
                proof {
                    lemma_room_index_from_bounds(self@, room_id@, 0);
                    assert(self@[room_index_of(self@, room_id@)].id.len() == 6);
                }
                Err(Error::CannotCreate)
            },
            None => {
                proof {
                    lemma_room_index_from_bounds(self@, room_id@, 0);
                    lemma_room_index_not_found(self@, room_id@, 0);
                }
                let room = Room::new(room_id.clone(), Player { id: player_id, name: player_name });
                let ghost rv = room@;
                let ghost pre = self.private_rooms.deep_view();
                self.private_rooms.push(room);
                proof {
                    assert(self.private_rooms.deep_view() =~= pre.push(rv));
                    assert forall|a: int, b: int| 0 <= a < b < self@.len() implies (
                    #[trigger] self@[a]).id != (#[trigger] self@[b]).id by {
                        if b < self@.len() - 1 {
                            assert(self@[a] == pre[a] && self@[b] == pre[b]);
                        } else {
                            assert(self@[a] == pre[a] && pre[a].id != room_id@);
                        }
                    }
                }
                Ok(room_id)
            },
        }
    }

    /// Adds a player to the named room's roster: idempotently in a lobby,
    /// and only as a returning member while a game runs.  Returns a
    /// snapshot of the room for the join broadcast.
    pub fn join_lobby(&mut self, player_id: String, player_name: String, room_id: &String) -> (r:
        Result<Room, Error>)
        requires
            storage_wf(old(self)@),
        ensures
            storage_wf(final(self)@),
            r is Err ==> final(self)@ == old(self)@,
            room_index_of(old(self)@, room_id@) < 0 <==> r is Err && r->Err_0
                == Error::RoomNotFound,
            r is Ok ==> room_index_of(old(self)@, room_id@) >= 0 && final(self)@ == old(
                self,
            )@.update(
                room_index_of(old(self)@, room_id@),
                r->Ok_0@,
            ) && r->Ok_0@.id == room_id@ && r->Ok_0@.state == spec_joined_state(
                old(self)@[room_index_of(old(self)@, room_id@)].state,
                (PlayerView { id: player_id@, name: player_name@ }),
            ),
            r is Err && room_index_of(old(self)@, room_id@) >= 0 ==> r->Err_0
                == Error::GameAlreadyRunning,
            room_index_of(old(self)@, room_id@) >= 0 ==> (r is Ok <==> (old(self)@[room_index_of(
                old(self)@,
                room_id@,
            )].state is Lobby || crate::logic::game_index_of(
                old(self)@[room_index_of(old(self)@, room_id@)].state->Game_0.players,
                player_id@,
            ) >= 0)),
    {
        let ghost rooms0 = self@;
        let player = Player { id: player_id, name: player_name };
        let ghost pv = player@;
        let i = match find_room(&self.private_rooms, room_id) {
            Some(i) => i,
            None => {
                return Err(Error::RoomNotFound);
            },
        };
        proof {
            lemma_room_index_from_bounds(rooms0, room_id@, 0);
        }
        let room = &mut self.private_rooms[i];
        let res = room.state.add_player(player);
        proof {
            assert(self.private_rooms.deep_view() =~= rooms0.update(
                i as int,
                self.private_rooms.deep_view()[i as int],
            ));
        }
        match res {
            Ok(u) => {
                let snapshot = self.private_rooms[i].clone();
                proof {
                    assert(snapshot@.state == spec_joined_state(rooms0[i as int].state, pv));
                    assert(self@[i as int].state.wf());
                    assert forall|k: int| 0 <= k < self@.len() implies (#[trigger] self@[
                        k
                    ]).state.wf() by {
                        if k != i as int {
                            assert(self@[k] == rooms0[k]);
                        }
                    }
                    assert forall|a: int, b: int| 0 <= a < b < self@.len() implies (
                    #[trigger] self@[a]).id != (#[trigger] self@[b]).id by {
                        if a != i as int {
                            assert(self@[a] == rooms0[a]);
                        }
                        if b != i as int {
                            assert(self@[b] == rooms0[b]);
                        }
                        assert(self@[i as int].id == rooms0[i as int].id);
                    }
                }
                Ok(snapshot)
            },
            Err(e) => {
                proof {
                    assert(self.private_rooms.deep_view() =~= rooms0);
                }
                Err(e)
            },
        }
    }

    /// Looks the sender up in the named room for a chat line, returning
    /// their identity and a snapshot to broadcast to.
    pub fn chat(&self, player_id: &String, room_id: &String) -> (r: Result<(Player, Room), Error>)
        ensures
            room_index_of(self@, room_id@) < 0 ==> r is Err && r->Err_0 == Error::RoomNotFound,
            room_index_of(self@, room_id@) >= 0 && self@[room_index_of(
                self@,
                room_id@,
            )].state.index_of(player_id@) < 0 ==> r is Err && r->Err_0 == Error::PlayerNotFound,
            room_index_of(self@, room_id@) >= 0 && self@[room_index_of(
                self@,
                room_id@,
            )].state.index_of(player_id@) >= 0 ==> r is Ok && r->Ok_0.1@ == self@[room_index_of(
                self@,
                room_id@,
            )] && r->Ok_0.0@ == self@[room_index_of(self@, room_id@)].state.player_at(
                self@[room_index_of(self@, room_id@)].state.index_of(player_id@),
            ),
    {
        let ghost rooms0 = self@;
        let i = match find_room(&self.private_rooms, room_id) {
            Some(i) => i,
            None => {
                return Err(Error::RoomNotFound);
            },
        };
        let room = &self.private_rooms[i];
        proof {
            assert(room@ == rooms0[i as int]);
        }
        match room.state.get_player(player_id) {
            Some(p) => {
                let player = p.clone();
                Ok((player, room.clone()))
            },
            None => Err(Error::PlayerNotFound),
        }
    }
}

/// The state of a room after a join: in a lobby the player is appended
/// unless already present; in a game nothing changes (a join succeeds
/// only for returning members).
pub open spec fn spec_joined_state(s: RoomStateView, p: PlayerView) -> RoomStateView {
    match s {
        RoomStateView::Lobby(d) => RoomStateView::Lobby(
            (crate::data::LobbyDataView {
                players: crate::data::spec_lobby_add(d.players, p),
                last_game: d.last_game,
            }),
        ),
        RoomStateView::Game(_) => s,
    }
}

/// A game-mode state with the turn advanced to the engine's pick.
pub open spec fn spec_turn_advanced(s: RoomStateView) -> RoomStateView {
    match s {
        RoomStateView::Game(d) => RoomStateView::Game(
            (GameDataView {
                players: d.players,
                game: match spec_game_next_turn(d.game, d.players) {
                    Some(t) => spec_game_change_turn(d.game, t),
                    None => d.game,
                },
            }),
        ),
        _ => s,
    }
}

/// The state of a room after an explicit leave by the player: their
/// entry is removed, the turn is rebalanced if they held it, and the
/// end-of-game condition is evaluated.
pub open spec fn spec_after_leave(s0: RoomStateView, id: Seq<char>) -> RoomStateView {
    let mid = s0.without_entry(s0.index_of(id));
    let turned = match mid {
        RoomStateView::Game(d) => if spec_game_can_change_turn(d.game, id) {
            spec_turn_advanced(mid)
        } else {
            mid
        },
        _ => mid,
    };
    spec_room_after_game_end(turned)
}

/// The state of a room after the player's connection closed but the room
/// survives: their channel is cleared, the turn is rebalanced if they
/// held it, and the end-of-game condition is evaluated.
pub open spec fn spec_after_connection_closed(s0: RoomStateView, id: Seq<char>) -> RoomStateView {
    let s1 = if s0.index_of(id) >= 0 {
        s0.with_channel(s0.index_of(id), None)
    } else {
        s0
    };
    let s2 = match s1 {
        RoomStateView::Game(d) => if !s1.spec_is_empty() && spec_game_can_change_turn(
            d.game,
            id,
        ) {
            spec_turn_advanced(s1)
        } else {
            s1
        },
        _ => s1,
    };
    spec_room_after_game_end(s2)
}

/// Whether the player's closed connection leaves the room with no live
/// channel at all: the room is then deleted.
pub open spec fn spec_leaves_room_empty(s0: RoomStateView, id: Seq<char>) -> bool {
    if s0.index_of(id) >= 0 {
        s0.with_channel(s0.index_of(id), None).spec_is_empty()
    } else {
        s0.spec_is_empty()
    }
}

impl Storage {
    /// Removes the player's roster entry from the named room entirely,
    /// rebalances the turn if they held it, and evaluates the end of
    /// game.  Returns the removed identity and a snapshot to broadcast.
    pub fn disconnect(&mut self, player_id: &String, room_id: &String) -> (r: Result<
        (Player, Room),
        Error,
    >)
        requires
            storage_wf(old(self)@),
        ensures
            storage_wf(final(self)@),
            r is Err ==> final(self)@ == old(self)@,
            room_index_of(old(self)@, room_id@) < 0 <==> r is Err && r->Err_0
                == Error::RoomNotFound,
            room_index_of(old(self)@, room_id@) >= 0 && old(self)@[room_index_of(
                old(self)@,
                room_id@,
            )].state.index_of(player_id@) < 0 ==> r is Err && r->Err_0 == Error::PlayerNotFound,
            room_index_of(old(self)@, room_id@) >= 0 && old(self)@[room_index_of(
                old(self)@,
                room_id@,
            )].state.index_of(player_id@) >= 0 ==> r is Ok,
            r is Ok ==> room_index_of(old(self)@, room_id@) >= 0 && final(self)@ == old(
                self,
            )@.update(room_index_of(old(self)@, room_id@), r->Ok_0.1@) && r->Ok_0.1@.id == room_id@
                && r->Ok_0.1@.state == spec_after_leave(
                old(self)@[room_index_of(old(self)@, room_id@)].state,
                player_id@,
            ) && r->Ok_0.0@ == old(self)@[room_index_of(old(self)@, room_id@)].state.player_at(
                old(self)@[room_index_of(old(self)@, room_id@)].state.index_of(player_id@),
            ),
    {
        let ghost rooms0 = self@;
        let i = match find_room(&self.private_rooms, room_id) {
            Some(i) => i,
            None => {
                return Err(Error::RoomNotFound);
            },
        };
        proof {
            lemma_room_index_from_bounds(rooms0, room_id@, 0);
        }
        let ghost s0 = rooms0[i as int].state;
        let room = &mut self.private_rooms[i];
        proof {
            assert(room@ == rooms0[i as int]);
            assert(rooms0[i as int].state.wf());
            lemma_state_index_bounds(s0, player_id@);
        }
        let player = match room.state.remove_player(player_id) {
            Ok(p) => p,
            Err(e) => {
                proof {
                    assert(self.private_rooms.deep_view() =~= rooms0);
                }
                return Err(e);
            },
        };
        proof {
            lemma_wf_without_entry(s0, s0.index_of(player_id@));
        }
        let ghost mid = s0.without_entry(s0.index_of(player_id@));
        if let RoomState::Game(data) = &mut room.state {
            if data.game.can_change_turn(&player.id) {
                data.change_turn();
                proof {
                    match crate::games::spec_game_next_turn(
                        mid->Game_0.game,
                        mid->Game_0.players,
                    ) {
                        Some(t) => {
                            lemma_wf_change_turn(mid->Game_0, t);
                        },
                        None => {},
                    }
                }
            }
        }
        proof {
            assert(room@.state.wf());
            assert(room@.state == (match mid {
                RoomStateView::Game(d) => if spec_game_can_change_turn(d.game, player_id@) {
                    spec_turn_advanced(mid)
                } else {
                    mid
                },
                _ => mid,
            }));
        }
        room.state.handle_game_end();
        let snapshot = room.clone();
        proof {
            assert(self.private_rooms.deep_view() =~= rooms0.update(
                i as int,
                self.private_rooms.deep_view()[i as int],
            ));
            assert forall|k: int| 0 <= k < self@.len() implies (#[trigger] self@[k]).state.wf() by {
                if k != i as int {
                    assert(self@[k] == rooms0[k]);
                }
            }
            assert forall|a: int, b: int| 0 <= a < b < self@.len() implies (#[trigger] self@[
                a
            ]).id != (#[trigger] self@[b]).id by {
                if a != i as int {
                    assert(self@[a] == rooms0[a]);
                }
                if b != i as int {
                    assert(self@[b] == rooms0[b]);
                }
                assert(self@[i as int].id == rooms0[i as int].id);
            }
        }
        Ok((player, snapshot))
    }

    /// Attaches a fresh channel to the player in the named room: the
    /// write half of a new subscription.  Returns the player's identity
    /// and a snapshot for the connection broadcast.
    pub fn subscribe(&mut self, player_id: &String, room_id: &String, channel: u64) -> (r: Result<
        (Player, Room),
        Error,
    >)
        requires
            storage_wf(old(self)@),
        ensures
            storage_wf(final(self)@),
            r is Err ==> final(self)@ == old(self)@,
            room_index_of(old(self)@, room_id@) < 0 <==> r is Err && r->Err_0
                == Error::RoomNotFound,
            room_index_of(old(self)@, room_id@) >= 0 && old(self)@[room_index_of(
                old(self)@,
                room_id@,
            )].state.index_of(player_id@) < 0 ==> r is Err && r->Err_0 == Error::PlayerNotFound,
            room_index_of(old(self)@, room_id@) >= 0 && old(self)@[room_index_of(
                old(self)@,
                room_id@,
            )].state.index_of(player_id@) >= 0 ==> r is Ok,
            r is Ok ==> room_index_of(old(self)@, room_id@) >= 0 && final(self)@ == old(
                self,
            )@.update(room_index_of(old(self)@, room_id@), r->Ok_0.1@) && r->Ok_0.1@.id == room_id@
                && r->Ok_0.1@.state == old(self)@[room_index_of(
                old(self)@,
                room_id@,
            )].state.with_channel(
                old(self)@[room_index_of(old(self)@, room_id@)].state.index_of(player_id@),
                Some(channel),
            ) && r->Ok_0.0@ == old(self)@[room_index_of(old(self)@, room_id@)].state.player_at(
                old(self)@[room_index_of(old(self)@, room_id@)].state.index_of(player_id@),
            ),
    {
        let ghost rooms0 = self@;
        let i = match find_room(&self.private_rooms, room_id) {
            Some(i) => i,
            None => {
                return Err(Error::RoomNotFound);
            },
        };
        proof {
            lemma_room_index_from_bounds(rooms0, room_id@, 0);
        }
        let ghost s0 = rooms0[i as int].state;
        let room = &mut self.private_rooms[i];
        proof {
            assert(room@ == rooms0[i as int]);
            assert(rooms0[i as int].state.wf());
            lemma_state_index_bounds(s0, player_id@);
        }
        let player = match room.state.get_player(player_id) {
            Some(p) => p.clone(),
            None => {
                proof {
                    assert(self.private_rooms.deep_view() =~= rooms0);
                }
                return Err(Error::PlayerNotFound);
            },
        };
        match room.state.set_player_channel(player_id.clone(), channel) {
            Ok(u) => {},
            Err(e) => {
                proof {
                    assert(false);
                }
                return Err(e);
            },
        }
        proof {
            lemma_wf_with_channel(s0, s0.index_of(player_id@), Some(channel));
        }
        let snapshot = room.clone();
        proof {
            assert(self.private_rooms.deep_view() =~= rooms0.update(
                i as int,
                self.private_rooms.deep_view()[i as int],
            ));
            assert forall|k: int| 0 <= k < self@.len() implies (#[trigger] self@[k]).state.wf() by {
                if k != i as int {
                    assert(self@[k] == rooms0[k]);
                }
            }
            assert forall|a: int, b: int| 0 <= a < b < self@.len() implies (#[trigger] self@[
                a
            ]).id != (#[trigger] self@[b]).id by {
                if a != i as int {
                    assert(self@[a] == rooms0[a]);
                }
                if b != i as int {
                    assert(self@[b] == rooms0[b]);
                }
                assert(self@[i as int].id == rooms0[i as int].id);
            }
        }
        Ok((player, snapshot))
    }

    /// The finalizer of a closed connection: clears the player's channel,
    /// deletes the room if no live channel remains, otherwise rebalances
    /// the turn and evaluates the end of game.  Returns the snapshot the
    /// remaining members should be told about, or nothing if the room is
    /// gone (or never existed).
    pub fn connection_closed(&mut self, player_id: &String, room_id: &String) -> (r: Option<Room>)
        requires
            storage_wf(old(self)@),
        ensures
            storage_wf(final(self)@),
            room_index_of(old(self)@, room_id@) < 0 ==> final(self)@ == old(self)@ && r is None,
            room_index_of(old(self)@, room_id@) >= 0 && spec_leaves_room_empty(
                old(self)@[room_index_of(old(self)@, room_id@)].state,
                player_id@,
            ) ==> final(self)@ == old(self)@.remove(room_index_of(old(self)@, room_id@)) && r
                is None,
            room_index_of(old(self)@, room_id@) >= 0 && !spec_leaves_room_empty(
                old(self)@[room_index_of(old(self)@, room_id@)].state,
                player_id@,
            ) ==> r is Some && final(self)@ == old(self)@.update(
                room_index_of(old(self)@, room_id@),
                r->Some_0@,
            ) && r->Some_0@.id == room_id@ && r->Some_0@.state == spec_after_connection_closed(
                old(self)@[room_index_of(old(self)@, room_id@)].state,
                player_id@,
            ),
    {
        let ghost rooms0 = self@;
        let i = match find_room(&self.private_rooms, room_id) {
            Some(i) => i,
            None => {
                return None;
            },
        };
        proof {
            lemma_room_index_from_bounds(rooms0, room_id@, 0);
        }
        let ghost s0 = rooms0[i as int].state;
        let room = &mut self.private_rooms[i];
        proof {
            assert(room@ == rooms0[i as int]);
            assert(rooms0[i as int].state.wf());
            lemma_state_index_bounds(s0, player_id@);
        }
        // A player who already has no entry is tolerated: the finalizer
        // must never fail.
        let _ = room.state.disconnect_player(player_id);
        proof {
            if s0.index_of(player_id@) >= 0 {
                lemma_wf_with_channel(s0, s0.index_of(player_id@), None);
            }
        }
        let empty = room.state.is_empty();
        if !empty {
            if let RoomState::Game(data) = &mut room.state {
                if data.game.can_change_turn(player_id) {
                    data.change_turn();
                    proof {
                        let ghost s1 = if s0.index_of(player_id@) >= 0 {
                            s0.with_channel(s0.index_of(player_id@), None)
                        } else {
                            s0
                        };
                        match crate::games::spec_game_next_turn(
                            s1->Game_0.game,
                            s1->Game_0.players,
                        ) {
                            Some(t) => {
                                lemma_wf_change_turn(s1->Game_0, t);
                            },
                            None => {},
                        }
                    }
                }
            }
        }
        room.state.handle_game_end();
        if empty {
            let _ = self.private_rooms.remove(i);
            proof {
                assert(self.private_rooms.deep_view() =~= rooms0.remove(i as int));
                assert forall|k: int| 0 <= k < self@.len() implies (#[trigger] self@[
                    k
                ]).state.wf() by {
                    if k < i as int {
                        assert(self@[k] == rooms0[k]);
                    } else {
                        assert(self@[k] == rooms0[k + 1]);
                    }
                }
                assert forall|a: int, b: int| 0 <= a < b < self@.len() implies (
                #[trigger] self@[a]).id != (#[trigger] self@[b]).id by {
                    if a < i as int {
                        assert(self@[a] == rooms0[a]);
                    } else {
                        assert(self@[a] == rooms0[a + 1]);
                    }
                    if b < i as int {
                        assert(self@[b] == rooms0[b]);
                    } else {
                        assert(self@[b] == rooms0[b + 1]);
                    }
                }
            }
            None
        } else {
            let snapshot = self.private_rooms[i].clone();
            proof {
                assert(self.private_rooms.deep_view() =~= rooms0.update(
                    i as int,
                    self.private_rooms.deep_view()[i as int],
                ));
                assert forall|k: int| 0 <= k < self@.len() implies (#[trigger] self@[
                    k
                ]).state.wf() by {
                    if k != i as int {
                        assert(self@[k] == rooms0[k]);
                    }
                }
            }
            Some(snapshot)
        }
    }

    /// Drives one client event through the named room and returns a
    /// snapshot of the room afterwards.
    pub fn handle_room_event(
        &mut self,
        room_id: &String,
        player_id: &String,
        event: PlayerEvents,
    ) -> (r: Result<Room, Error>)
        requires
            storage_wf(old(self)@),
            event_wf(event),
        ensures
            storage_wf(final(self)@),
            r is Err ==> final(self)@ == old(self)@,
            room_index_of(old(self)@, room_id@) < 0 <==> r is Err && r->Err_0
                == Error::RoomNotFound,
            r is Ok ==> room_index_of(old(self)@, room_id@) >= 0 && final(self)@ == old(
                self,
            )@.update(room_index_of(old(self)@, room_id@), r->Ok_0@) && r->Ok_0@.id == room_id@
                && r->Ok_0@.state.wf(),
            room_index_of(old(self)@, room_id@) >= 0 && old(self)@[room_index_of(
                old(self)@,
                room_id@,
            )].state is Lobby && event is GameMessage ==> r is Err && r->Err_0
                == Error::GameNotRunning,
            room_index_of(old(self)@, room_id@) >= 0 && old(self)@[room_index_of(
                old(self)@,
                room_id@,
            )].state is Game && event is StartGame ==> r is Err && r->Err_0
                == Error::GameAlreadyRunning,
            room_index_of(old(self)@, room_id@) >= 0 && old(self)@[room_index_of(
                old(self)@,
                room_id@,
            )].state is Lobby && event is StartGame ==> (r is Ok
                <==> crate::logic::spec_start_accepted(event->StartGame_0)),
            room_index_of(old(self)@, room_id@) >= 0 && old(self)@[room_index_of(
                old(self)@,
                room_id@,
            )].state is Lobby && event is StartGame && r is Ok ==> exists|g: GameView|
                #[trigger] crate::logic::spec_start_witness(
                    event->StartGame_0,
                    old(self)@[room_index_of(old(self)@, room_id@)].state->Lobby_0.players,
                    player_id@,
                    g,
                ) && r->Ok_0@.state == spec_room_after_game_end(
                    RoomStateView::Game(
                        (GameDataView {
                            players: crate::logic::spec_started_players(
                                old(self)@[room_index_of(
                                    old(self)@,
                                    room_id@,
                                )].state->Lobby_0.players,
                                event->StartGame_0,
                            ),
                            game: g,
                        }),
                    ),
                ),
            room_index_of(old(self)@, room_id@) >= 0 && old(self)@[room_index_of(
                old(self)@,
                room_id@,
            )].state is Game && event is GameMessage ==> exists|
                g1: GameView,
                ps1: Seq<GamePlayerView>,
            |
                #[trigger] crate::games::spec_game_outcome(
                    old(self)@[room_index_of(old(self)@, room_id@)].state->Game_0.game,
                    old(self)@[room_index_of(old(self)@, room_id@)].state->Game_0.players,
                    player_id@,
                    event->GameMessage_0,
                    g1,
                    ps1,
                    unit_verdict(r),
                ) && (r is Ok ==> r->Ok_0@.state == spec_room_after_game_end(
                    RoomStateView::Game((GameDataView { players: ps1, game: g1 })),
                )),
    {
        let ghost rooms0 = self@;
        let i = match find_room(&self.private_rooms, room_id) {
            Some(i) => i,
            None => {
                return Err(Error::RoomNotFound);
            },
        };
        proof {
            lemma_room_index_from_bounds(rooms0, room_id@, 0);
        }
        let room = &mut self.private_rooms[i];
        proof {
            assert(room@ == rooms0[i as int]);
            assert(rooms0[i as int].state.wf());
        }
        let res = room.handle_player_message(player_id, event);
        match res {
            Ok(u) => {
                let snapshot = self.private_rooms[i].clone();
                proof {
                    assert(self.private_rooms.deep_view() =~= rooms0.update(
                        i as int,
                        self.private_rooms.deep_view()[i as int],
                    ));
                    assert forall|k: int| 0 <= k < self@.len() implies (#[trigger] self@[
                        k
                    ]).state.wf() by {
                        if k != i as int {
                            assert(self@[k] == rooms0[k]);
                        }
                    }
                    assert forall|a: int, b: int| 0 <= a < b < self@.len() implies (
                    #[trigger] self@[a]).id != (#[trigger] self@[b]).id by {
                        if a != i as int {
                            assert(self@[a] == rooms0[a]);
                        }
                        if b != i as int {
                            assert(self@[b] == rooms0[b]);
                        }
                        assert(self@[i as int].id == rooms0[i as int].id);
                    }
                }
                Ok(snapshot)
            },
            Err(e) => {
                proof {
                    assert(self.private_rooms.deep_view() =~= rooms0);
                }
                Err(e)
            },
        }
    }

    /// Validates a submitted Bingo board against the named room's board
    /// size and, if it is a proper square of distinct in-range values,
    /// hands it to the running game as the sender's ready board.
    pub fn bingo_ready_board(
        &mut self,
        room_id: &String,
        player_id: &String,
        numbers: Vec<Vec<u32>>,
    ) -> (r: Result<Room, Error>)
        requires
            storage_wf(old(self)@),
        ensures
            storage_wf(final(self)@),
            r is Err ==> final(self)@ == old(self)@,
            room_index_of(old(self)@, room_id@) < 0 ==> r is Err && r->Err_0
                == Error::RoomNotFound,
            room_index_of(old(self)@, room_id@) >= 0 && !(old(self)@[room_index_of(
                old(self)@,
                room_id@,
            )].state is Game) ==> r is Err && r->Err_0 == Error::GameNotRunning,
            room_index_of(old(self)@, room_id@) >= 0 && old(self)@[room_index_of(
                old(self)@,
                room_id@,
            )].state is Game && !(old(self)@[room_index_of(
                old(self)@,
                room_id@,
            )].state->Game_0.game is Bingo) ==> r is Err && r->Err_0 == Error::WrongGameMessage,
            room_index_of(old(self)@, room_id@) >= 0 && old(self)@[room_index_of(
                old(self)@,
                room_id@,
            )].state is Game && old(self)@[room_index_of(
                old(self)@,
                room_id@,
            )].state->Game_0.game is Bingo && !crate::bingo::valid_board(
                numbers.deep_view(),
                old(self)@[room_index_of(
                    old(self)@,
                    room_id@,
                )].state->Game_0.game->Bingo_0.board_size as int,
            ) ==> r is Err && r->Err_0 == Error::InvalidBoard,
            spec_board_accepted(old(self)@, room_id@, numbers.deep_view()) ==> (r is Ok
                <==> (room_at(old(self)@, room_id@).state->Game_0.game->Bingo_0.game_state
                is BoardCreation && !room_at(
                old(self)@,
                room_id@,
            ).state->Game_0.game->Bingo_0.game_state->BoardCreation_0.contains(player_id@)
                && crate::logic::game_index_of(
                room_at(old(self)@, room_id@).state->Game_0.players,
                player_id@,
            ) >= 0)),
            spec_board_accepted(old(self)@, room_id@, numbers.deep_view()) && room_at(
                old(self)@,
                room_id@,
            ).state->Game_0.game->Bingo_0.game_state is GameRunning ==> r is Err && r->Err_0
                == Error::GameAlreadyRunning,
            spec_board_accepted(old(self)@, room_id@, numbers.deep_view()) && room_at(
                old(self)@,
                room_id@,
            ).state->Game_0.game->Bingo_0.game_state is BoardCreation && room_at(
                old(self)@,
                room_id@,
            ).state->Game_0.game->Bingo_0.game_state->BoardCreation_0.contains(player_id@) ==> r
                is Err && r->Err_0 == Error::BoardAlreadySet,
            spec_board_accepted(old(self)@, room_id@, numbers.deep_view()) && room_at(
                old(self)@,
                room_id@,
            ).state->Game_0.game->Bingo_0.game_state is BoardCreation && !room_at(
                old(self)@,
                room_id@,
            ).state->Game_0.game->Bingo_0.game_state->BoardCreation_0.contains(player_id@)
                && crate::logic::game_index_of(
                room_at(old(self)@, room_id@).state->Game_0.players,
                player_id@,
            ) < 0 ==> r is Err && r->Err_0 == Error::PlayerNotFound,
            spec_board_accepted(old(self)@, room_id@, numbers.deep_view()) && r is Ok ==> exists|
                g1: crate::bingo::BingoView,
                ps1: Seq<GamePlayerView>,
            |
                #[trigger] crate::bingo::spec_ready_board_ok(
                    room_at(old(self)@, room_id@).state->Game_0.game->Bingo_0,
                    room_at(old(self)@, room_id@).state->Game_0.players,
                    player_id@,
                    numbers.deep_view(),
                    g1,
                    ps1,
                ) && r->Ok_0@.state == spec_room_after_game_end(
                    RoomStateView::Game(
                        (GameDataView { players: ps1, game: GameView::Bingo(g1) }),
                    ),
                ),
            r is Ok ==> room_index_of(old(self)@, room_id@) >= 0 && final(self)@ == old(
                self,
            )@.update(room_index_of(old(self)@, room_id@), r->Ok_0@) && r->Ok_0@.id == room_id@
                && r->Ok_0@.state.wf(),
    {
        let ghost rooms0 = self@;
        let i = match find_room(&self.private_rooms, room_id) {
            Some(i) => i,
            None => {
                return Err(Error::RoomNotFound);
            },
        };
        proof {
            lemma_room_index_from_bounds(rooms0, room_id@, 0);
        }
        let board_size: u16 = {
            let room = &self.private_rooms[i];
            match room.state.as_game() {
                Some(g) => match g.game.as_bingo() {
                    Some(b) => b.board_size,
                    None => {
                        return Err(Error::WrongGameMessage);
                    },
                },
                None => {
                    return Err(Error::GameNotRunning);
                },
            }
        };
        let ghost nv = numbers.deep_view();
        let board = match crate::bingo::Board::new(numbers, board_size) {
            Ok(b) => b,
            Err(e) => {
                return Err(e);
            },
        };
        proof {
            assert(crate::bingo::board_wf(board@));
        }
        let event = PlayerEvents::GameMessage(
            crate::games::PlayerMessages::BingoMessages(
                crate::bingo::BingoPlayerMessages::ReadyBoard(board),
            ),
        );
        let ghost evg = event;
        let res = self.handle_room_event(room_id, player_id, event);
        proof {
            let g0 = rooms0[i as int].state->Game_0.game;
            let ps0 = rooms0[i as int].state->Game_0.players;
            let (g1v, ps1v) = choose|g1v: GameView, ps1v: Seq<GamePlayerView>|
                crate::games::spec_game_outcome(
                    g0,
                    ps0,
                    player_id@,
                    evg->GameMessage_0,
                    g1v,
                    ps1v,
                    unit_verdict(res),
                ) && (res is Ok ==> res->Ok_0@.state == spec_room_after_game_end(
                    RoomStateView::Game((GameDataView { players: ps1v, game: g1v })),
                ));
            assert(evg->GameMessage_0->BingoMessages_0->ReadyBoard_0@ == nv);
            assert(crate::bingo::spec_bingo_outcome(
                g0->Bingo_0,
                ps0,
                player_id@,
                evg->GameMessage_0->BingoMessages_0,
                g1v->Bingo_0,
                ps1v,
                unit_verdict(res),
            ));
            if res is Ok {
                assert(crate::bingo::spec_ready_board_ok(
                    g0->Bingo_0,
                    ps0,
                    player_id@,
                    nv,
                    g1v->Bingo_0,
                    ps1v,
                ));
                assert(g1v == GameView::Bingo(g1v->Bingo_0));
            }
        }
        res
    }
}

impl Default for Storage {
    /// An empty registry.
    fn default() -> (r: Self)
        ensures
            r@ =~= Seq::<RoomView>::empty(),
    {
        Storage::new()
    }
}

/// While another channel stays live, the finalizer of the turn-holder's
/// closed connection hands the turn to the engine's pick, and the room
/// stays in game mode as long as the game is not over: a dropped
/// turn-holder never stalls a running game.
pub proof fn lemma_connection_closed_reassigns_turn(
    s0: RoomStateView,
    id: Seq<char>,
    t: Seq<char>,
)
    requires
        s0 is Game,
        s0.index_of(id) >= 0,
        spec_game_can_change_turn(s0->Game_0.game, id),
        !s0.with_channel(s0.index_of(id), None).spec_is_empty(),
        spec_game_next_turn(
            s0.with_channel(s0.index_of(id), None)->Game_0.game,
            s0.with_channel(s0.index_of(id), None)->Game_0.players,
        ) == Some(t),
        !crate::games::spec_game_is_end(
            spec_turn_advanced(s0.with_channel(s0.index_of(id), None))->Game_0.game,
            spec_turn_advanced(s0.with_channel(s0.index_of(id), None))->Game_0.players,
        ),
    ensures
        spec_after_connection_closed(s0, id) is Game,
        spec_game_can_change_turn(spec_after_connection_closed(s0, id)->Game_0.game, t),
{
    let s1 = s0.with_channel(s0.index_of(id), None);
    let s2 = spec_turn_advanced(s1);
    assert(s1->Game_0.game == s0->Game_0.game);
    assert(spec_after_connection_closed(s0, id) == spec_room_after_game_end(s2));
    assert(spec_room_after_game_end(s2) == s2);
    match s1->Game_0.game {
        GameView::Bingo(b) => {
            assert(b.game_state is GameRunning);
        },
        GameView::Boxes(_) => {},
        GameView::Bluff(_) => {},
    }
}

} // verus!
