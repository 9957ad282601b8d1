use game_rooms::bingo::BingoStart;
use game_rooms::data::{LobbyPlayer, Player, Room, RoomState};
use game_rooms::games::{PlayerMessages, StartMessages};
use game_rooms::logic::PlayerEvents;
use game_rooms::Error;

fn player(id: &str) -> Player {
    Player { id: id.to_string(), name: format!("name of {}", id) }
}

fn lobby_ids(state: &RoomState) -> Vec<String> {
    match state {
        RoomState::Lobby(d) => d.players.iter().map(|p| p.player.id.clone()).collect(),
        RoomState::Game(d) => d.players.iter().map(|p| p.player.id.clone()).collect(),
    }
}

#[test]
fn a_new_room_is_a_lobby_with_its_seed_player() {
    let room = Room::new("ROOM01".to_string(), player("a"));
    assert_eq!(room.id, "ROOM01".to_string());
    // A room is in exactly one of its two modes.
    match &room.state {
        RoomState::Lobby(d) => {
            assert_eq!(d.players.len(), 1);
            assert_eq!(d.players[0].player.id, "a".to_string());
            assert!(d.players[0].send_channel.is_none());
            assert!(d.last_game.is_none());
        }
        RoomState::Game(_) => panic!("a fresh room must be a lobby"),
    }
}

#[test]
fn add_player_is_idempotent_in_the_lobby() {
    let mut room = Room::new("R".to_string(), player("a"));
    assert_eq!(room.state.add_player(player("b")), Ok(()));
    assert_eq!(lobby_ids(&room.state), vec!["a".to_string(), "b".to_string()]);
    // Joining again with the same id leaves one roster entry, not two.
    assert_eq!(room.state.add_player(player("b")), Ok(()));
    assert_eq!(lobby_ids(&room.state), vec!["a".to_string(), "b".to_string()]);
    assert_eq!(room.state.add_player(player("a")), Ok(()));
    assert_eq!(lobby_ids(&room.state), vec!["a".to_string(), "b".to_string()]);
}

#[test]
fn channels_attach_detach_and_decide_emptiness() {
    let mut room = Room::new("R".to_string(), player("a"));
    room.state.add_player(player("b")).unwrap();
    assert!(room.state.is_empty());
    assert_eq!(room.state.set_player_channel("a".to_string(), 10), Ok(()));
    assert!(!room.state.is_empty());
    assert_eq!(
        room.state.set_player_channel("x".to_string(), 11),
        Err(Error::PlayerNotFound)
    );
    assert_eq!(room.state.set_player_channel("b".to_string(), 12), Ok(()));
    assert_eq!(room.state.recipients(), vec![10, 12]);
    assert_eq!(room.state.disconnect_player(&"a".to_string()), Ok(()));
    assert_eq!(room.state.recipients(), vec![12]);
    assert!(!room.state.is_empty());
    assert_eq!(room.state.disconnect_player(&"b".to_string()), Ok(()));
    assert!(room.state.is_empty());
    // Disconnecting keeps the roster entries.
    assert_eq!(lobby_ids(&room.state), vec!["a".to_string(), "b".to_string()]);
    assert_eq!(
        room.state.disconnect_player(&"x".to_string()),
        Err(Error::PlayerNotFound)
    );
}

#[test]
fn remove_player_deletes_the_entry_and_returns_the_identity() {
    let mut room = Room::new("R".to_string(), player("a"));
    room.state.add_player(player("b")).unwrap();
    let removed = room.state.remove_player(&"a".to_string()).unwrap();
    assert_eq!(removed.id, "a".to_string());
    assert_eq!(lobby_ids(&room.state), vec!["b".to_string()]);
    assert!(matches!(
        room.state.remove_player(&"a".to_string()),
        Err(Error::PlayerNotFound)
    ));
}

#[test]
fn get_player_finds_roster_entries_in_either_mode() {
    let mut room = Room::new("R".to_string(), player("a"));
    room.state.add_player(player("b")).unwrap();
    assert_eq!(room.state.get_player(&"b".to_string()).unwrap().id, "b".to_string());
    assert!(room.state.get_player(&"x".to_string()).is_none());
}

#[test]
fn lobby_rejects_in_game_messages_and_games_reject_starts() {
    let mut room = Room::new("R".to_string(), player("a"));
    room.state.add_player(player("b")).unwrap();
    // Both players connect; with at most one connected player a fresh
    // game would end, and the room would fall straight back to a lobby.
    room.state.set_player_channel("a".to_string(), 1).unwrap();
    room.state.set_player_channel("b".to_string(), 2).unwrap();
    let premature = PlayerEvents::GameMessage(PlayerMessages::BingoMessages(
        game_rooms::bingo::BingoPlayerMessages::Move(3),
    ));
    assert_eq!(
        room.handle_player_message(&"a".to_string(), premature),
        Err(Error::GameNotRunning)
    );
    let start = PlayerEvents::StartGame(StartMessages::BingoStart(BingoStart { board_size: 3 }));
    assert_eq!(room.handle_player_message(&"a".to_string(), start), Ok(()));
    assert!(matches!(room.state, RoomState::Game(_)));
    // Starting again while the game runs is rejected.
    let again = PlayerEvents::StartGame(StartMessages::BingoStart(BingoStart { board_size: 3 }));
    assert_eq!(
        room.handle_player_message(&"a".to_string(), again),
        Err(Error::GameAlreadyRunning)
    );
    // The game-mode roster carries both players over, channels included.
    match &room.state {
        RoomState::Game(d) => {
            assert_eq!(d.players.len(), 2);
            assert_eq!(d.players[0].player.id, "a".to_string());
            assert_eq!(d.players[1].player.id, "b".to_string());
        }
        RoomState::Lobby(_) => panic!("the start request did not take"),
    }
    // A reconnect-style join succeeds for a member, fails for a stranger.
    let mut game_room = room;
    assert_eq!(game_room.state.add_player(player("a")), Ok(()));
    assert_eq!(
        game_room.state.add_player(player("c")),
        Err(Error::GameAlreadyRunning)
    );
}

#[test]
fn a_lobby_roster_keeps_insertion_order() {
    let mut room = Room::new("R".to_string(), player("c"));
    room.state.add_player(player("a")).unwrap();
    room.state.add_player(player("b")).unwrap();
    assert_eq!(
        lobby_ids(&room.state),
        vec!["c".to_string(), "a".to_string(), "b".to_string()]
    );
    let entry: &LobbyPlayer = match &room.state {
        RoomState::Lobby(d) => &d.players[1],
        RoomState::Game(_) => panic!("the room left its lobby"),
    };
    assert_eq!(entry.player.name, "name of a".to_string());
}

#[test]
fn room_ids_come_out_at_the_requested_length() {
    assert_eq!(game_rooms::utils::generate_rand_string(6).len(), 6);
    assert_eq!(game_rooms::utils::generate_rand_string(0).len(), 0);
    assert_eq!(game_rooms::utils::generate_rand_string(12).len(), 12);
}
