use game_rooms::bingo::{BingoPlayerMessages, BingoStart};
use game_rooms::bluff::{BluffPlayerMessages, StartBluff};
use game_rooms::data::RoomState;
use game_rooms::games::{PlayerMessages, StartMessages};
use game_rooms::logic::PlayerEvents;
use game_rooms::registry::Storage;
use game_rooms::Error;

fn current_turn(storage: &Storage, room_id: &String) -> String {
    for room in &storage.private_rooms {
        if room.id == *room_id {
            match &room.state {
                RoomState::Game(d) => match &d.game {
                    game_rooms::games::Game::Bingo(b) => match &b.game_state {
                        game_rooms::bingo::GameState::GameRunning(run) => {
                            return run.turn.clone();
                        }
                        game_rooms::bingo::GameState::BoardCreation(_) => {
                            panic!("the game has not started running yet")
                        }
                    },
                    _ => panic!("not a bingo room"),
                },
                RoomState::Lobby(_) => panic!("the room is not in game mode"),
            }
        }
    }
    panic!("room not found")
}

fn room_state<'a>(storage: &'a Storage, room_id: &String) -> &'a RoomState {
    for room in &storage.private_rooms {
        if room.id == *room_id {
            return &room.state;
        }
    }
    panic!("room not found")
}

#[test]
fn registry_reports_missing_rooms_and_players() {
    let mut storage = Storage::new();
    assert!(matches!(
        storage.join_lobby("b".to_string(), "B".to_string(), &"NOWHERE".to_string()),
        Err(Error::RoomNotFound)
    ));
    assert!(matches!(
        storage.chat(&"a".to_string(), &"NOWHERE".to_string()),
        Err(Error::RoomNotFound)
    ));
    let room_id = storage.create_lobby("a".to_string(), "A".to_string()).unwrap();
    assert_eq!(room_id.len(), 6);
    assert!(matches!(
        storage.subscribe(&"ghost".to_string(), &room_id, 9),
        Err(Error::PlayerNotFound)
    ));
    assert!(matches!(
        storage.chat(&"ghost".to_string(), &room_id),
        Err(Error::PlayerNotFound)
    ));
    let (who, _snapshot) = storage.chat(&"a".to_string(), &room_id).unwrap();
    assert_eq!(who.id, "a".to_string());
}

#[test]
fn full_bingo_match_returns_the_room_to_a_lobby_with_a_leaderboard() {
    let mut storage = Storage::new();
    let room_id = storage.create_lobby("a".to_string(), "A".to_string()).unwrap();
    storage
        .join_lobby("b".to_string(), "B".to_string(), &room_id)
        .unwrap();
    storage.subscribe(&"a".to_string(), &room_id, 1).unwrap();
    storage.subscribe(&"b".to_string(), &room_id, 2).unwrap();
    // A starts Bingo with board size three.
    storage
        .handle_room_event(
            &room_id,
            &"a".to_string(),
            PlayerEvents::StartGame(StartMessages::BingoStart(BingoStart { board_size: 3 })),
        )
        .unwrap();
    // Both submit valid boards covering one to nine exactly once.
    storage
        .bingo_ready_board(
            &room_id,
            &"a".to_string(),
            vec![vec![1, 2, 3], vec![4, 5, 6], vec![7, 8, 9]],
        )
        .unwrap();
    // A malformed board is rejected without changing anything.
    assert!(matches!(
        storage.bingo_ready_board(&room_id, &"b".to_string(), vec![vec![1, 1], vec![2, 3]]),
        Err(Error::InvalidBoard)
    ));
    storage
        .bingo_ready_board(
            &room_id,
            &"b".to_string(),
            vec![vec![1, 4, 7], vec![2, 5, 8], vec![3, 6, 9]],
        )
        .unwrap();
    // Play begins with one of the two on turn; moves alternate, since
    // both stay eligible until the seventh call completes both boards.
    let mut callers: Vec<String> = Vec::new();
    for v in 1..=7u32 {
        let turn = current_turn(&storage, &room_id);
        // A number that was already called is rejected.
        if v > 1 {
            assert!(matches!(
                storage.handle_room_event(
                    &room_id,
                    &turn,
                    PlayerEvents::GameMessage(PlayerMessages::BingoMessages(
                        BingoPlayerMessages::Move(v - 1)
                    )),
                ),
                Err(Error::InvalidMove)
            ));
        }
        storage
            .handle_room_event(
                &room_id,
                &turn,
                PlayerEvents::GameMessage(PlayerMessages::BingoMessages(
                    BingoPlayerMessages::Move(v),
                )),
            )
            .unwrap();
        callers.push(turn);
    }
    // The turn really alternated while both players were eligible.
    for w in callers.windows(2).take(5) {
        assert_ne!(w[0], w[1]);
    }
    // The seventh call completed both boards: the game ended and the
    // room reverted to a lobby with the archived game and a two-entry
    // leaderboard; both players tied for first.
    match room_state(&storage, &room_id) {
        RoomState::Lobby(d) => {
            assert_eq!(d.players.len(), 2);
            // Channels are cleared on the way back to the lobby; a fresh
            // subscription would have to re-attach them.
            assert!(d.players.iter().all(|p| p.send_channel.is_none()));
            let last = d.last_game.as_ref().expect("the finished game must be archived");
            assert_eq!(last.leader_board.len(), 2);
            assert_eq!(last.leader_board[0].rank, 1);
            assert_eq!(last.leader_board[1].rank, 1);
        }
        RoomState::Game(_) => panic!("the finished game did not revert to a lobby"),
    }
}

fn running_three_player_game(storage: &mut Storage) -> String {
    let room_id = storage.create_lobby("a".to_string(), "A".to_string()).unwrap();
    storage
        .join_lobby("b".to_string(), "B".to_string(), &room_id)
        .unwrap();
    storage
        .join_lobby("c".to_string(), "C".to_string(), &room_id)
        .unwrap();
    storage.subscribe(&"a".to_string(), &room_id, 1).unwrap();
    storage.subscribe(&"b".to_string(), &room_id, 2).unwrap();
    storage.subscribe(&"c".to_string(), &room_id, 3).unwrap();
    storage
        .handle_room_event(
            &room_id,
            &"a".to_string(),
            PlayerEvents::StartGame(StartMessages::BingoStart(BingoStart { board_size: 3 })),
        )
        .unwrap();
    storage
        .bingo_ready_board(
            &room_id,
            &"a".to_string(),
            vec![vec![1, 2, 3], vec![4, 5, 6], vec![7, 8, 9]],
        )
        .unwrap();
    storage
        .bingo_ready_board(
            &room_id,
            &"b".to_string(),
            vec![vec![1, 4, 7], vec![2, 5, 8], vec![3, 6, 9]],
        )
        .unwrap();
    storage
        .bingo_ready_board(
            &room_id,
            &"c".to_string(),
            vec![vec![9, 8, 7], vec![6, 5, 4], vec![3, 2, 1]],
        )
        .unwrap();
    room_id
}

#[test]
fn the_turn_holders_disconnect_reassigns_the_turn() {
    let mut storage = Storage::new();
    let room_id = running_three_player_game(&mut storage);
    let holder = current_turn(&storage, &room_id);
    let snapshot = storage.connection_closed(&holder, &room_id);
    // Two players remain connected, so the room survives and the
    // remaining members get a snapshot to be told about.
    assert!(snapshot.is_some());
    assert_eq!(storage.private_rooms.len(), 1);
    // With two eligible players left the game keeps running, and the
    // turn moved off the disconnected holder.
    let new_turn = current_turn(&storage, &room_id);
    assert_ne!(new_turn, holder);
    match room_state(&storage, &room_id) {
        RoomState::Game(d) => {
            let connected = d.players.iter().filter(|p| p.send_channel.is_some()).count();
            assert_eq!(connected, 2);
            // The holder kept their roster entry, only the channel went.
            assert_eq!(d.players.len(), 3);
        }
        RoomState::Lobby(_) => panic!("two eligible players should keep the game running"),
    }
}

#[test]
fn the_last_disconnect_removes_the_room() {
    let mut storage = Storage::new();
    let room_id = running_three_player_game(&mut storage);
    let first = current_turn(&storage, &room_id);
    assert!(storage.connection_closed(&first, &room_id).is_some());
    // The second disconnect leaves one connected player: the game ends
    // and its archival clears the last channel, but the room survives
    // because a channel was still live when emptiness was judged.
    let second = current_turn(&storage, &room_id);
    assert!(storage.connection_closed(&second, &room_id).is_some());
    assert_eq!(storage.private_rooms.len(), 1);
    match room_state(&storage, &room_id) {
        RoomState::Lobby(d) => {
            assert!(d.players.iter().all(|p| p.send_channel.is_none()));
        }
        RoomState::Game(_) => {
            panic!("one connected player cannot keep a two-minimum game running")
        }
    }
    // The remaining player's finalizer finds no live channel left: the
    // room is deleted and nobody is told.
    let third = ["a", "b", "c"]
        .iter()
        .map(|s| s.to_string())
        .find(|id| *id != first && *id != second)
        .unwrap();
    assert!(storage.connection_closed(&third, &room_id).is_none());
    assert_eq!(storage.private_rooms.len(), 0);
}

#[test]
fn leaving_a_room_explicitly_removes_the_roster_entry() {
    let mut storage = Storage::new();
    let room_id = storage.create_lobby("a".to_string(), "A".to_string()).unwrap();
    storage
        .join_lobby("b".to_string(), "B".to_string(), &room_id)
        .unwrap();
    let (gone, snapshot) = storage.disconnect(&"a".to_string(), &room_id).unwrap();
    assert_eq!(gone.id, "a".to_string());
    match &snapshot.state {
        RoomState::Lobby(d) => {
            assert_eq!(d.players.len(), 1);
            assert_eq!(d.players[0].player.id, "b".to_string());
        }
        RoomState::Game(_) => panic!("a lobby leave cannot start a game"),
    }
    assert!(matches!(
        storage.disconnect(&"a".to_string(), &room_id),
        Err(Error::PlayerNotFound)
    ));
}

#[test]
fn a_room_can_run_a_bluff_match() {
    let mut storage = Storage::new();
    let room_id = storage.create_lobby("a".to_string(), "A".to_string()).unwrap();
    storage
        .join_lobby("b".to_string(), "B".to_string(), &room_id)
        .unwrap();
    storage.subscribe(&"a".to_string(), &room_id, 1).unwrap();
    storage.subscribe(&"b".to_string(), &room_id, 2).unwrap();
    storage
        .handle_room_event(
            &room_id,
            &"a".to_string(),
            PlayerEvents::StartGame(StartMessages::BluffStart(StartBluff { seed: 9 })),
        )
        .unwrap();
    // The starter opens the round; both hands hold half the deck and the
    // starting deck is empty.
    let first_card = match room_state(&storage, &room_id) {
        RoomState::Game(d) => match &d.game {
            game_rooms::games::Game::Bluff(g) => {
                assert_eq!(g.turn, "a".to_string());
                assert_eq!(g.turn_start, "a".to_string());
                assert!(g.deck_card.is_empty());
                let hand = match &d.players[0].data {
                    game_rooms::games::PlayerGameData::BluffPlayerData(h) => &h.cards,
                    _ => panic!("the starter's entry is not bluff data"),
                };
                assert_eq!(hand.len(), 26);
                hand[0]
            }
            _ => panic!("the start request built the wrong engine"),
        },
        RoomState::Lobby(_) => panic!("the start request did not take"),
    };
    // a deals their first card truthfully; the turn passes to b.
    storage
        .handle_room_event(
            &room_id,
            &"a".to_string(),
            PlayerEvents::GameMessage(PlayerMessages::BluffPlayerMessages(
                BluffPlayerMessages::Deal(vec![first_card], first_card),
            )),
        )
        .unwrap();
    match room_state(&storage, &room_id) {
        RoomState::Game(d) => match &d.game {
            game_rooms::games::Game::Bluff(g) => {
                assert_eq!(g.turn, "b".to_string());
                assert_eq!(g.centered_card.len(), 1);
                assert_eq!(g.claimed, Some(first_card));
            }
            _ => panic!("the engine changed variant mid-game"),
        },
        RoomState::Lobby(_) => panic!("one deal cannot end a two-player bluff game"),
    }
    // A bingo message into a bluff game is rejected.
    assert!(matches!(
        storage.handle_room_event(
            &room_id,
            &"b".to_string(),
            PlayerEvents::GameMessage(PlayerMessages::BingoMessages(
                game_rooms::bingo::BingoPlayerMessages::Move(1)
            )),
        ),
        Err(Error::WrongGameMessage)
    ));
}
