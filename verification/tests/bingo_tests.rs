use game_rooms::bingo::{Bingo, BingoPlayerData, BingoPlayerMessages, BingoStart, Board, GameState};
use game_rooms::data::Player;
use game_rooms::games::PlayerGameData;
use game_rooms::logic::GamePlayer;
use game_rooms::Error;

fn player(id: &str) -> Player {
    Player { id: id.to_string(), name: id.to_string() }
}

fn board_rows() -> Vec<Vec<u32>> {
    vec![vec![1, 2, 3], vec![4, 5, 6], vec![7, 8, 9]]
}

fn board_cols() -> Vec<Vec<u32>> {
    vec![vec![1, 4, 7], vec![2, 5, 8], vec![3, 6, 9]]
}

fn cells(values: &[u32]) -> Vec<game_rooms::bingo::SelectedCell> {
    values
        .iter()
        .map(|v| game_rooms::bingo::SelectedCell {
            cell_value: *v,
            selected_by: "caller".to_string(),
        })
        .collect()
}

#[test]
fn board_new_accepts_a_valid_grid() {
    let b = Board::new(board_rows(), 3).unwrap();
    assert_eq!(b.numbers.len(), 3);
}

#[test]
fn board_new_rejects_duplicates() {
    let grid = vec![vec![1, 2, 3], vec![4, 5, 6], vec![7, 8, 8]];
    assert!(matches!(Board::new(grid, 3), Err(Error::InvalidBoard)));
}

#[test]
fn board_new_rejects_out_of_range_values() {
    let grid = vec![vec![1, 2, 3], vec![4, 5, 6], vec![7, 8, 10]];
    assert!(matches!(Board::new(grid, 3), Err(Error::InvalidBoard)));
    let zero = vec![vec![0, 2, 3], vec![4, 5, 6], vec![7, 8, 9]];
    assert!(matches!(Board::new(zero, 3), Err(Error::InvalidBoard)));
}

#[test]
fn board_new_rejects_the_wrong_shape() {
    let ragged = vec![vec![1, 2, 3, 4], vec![5, 6], vec![7, 8, 9]];
    assert!(matches!(Board::new(ragged, 3), Err(Error::InvalidBoard)));
    let short = vec![vec![1, 2], vec![3, 4]];
    assert!(matches!(Board::new(short, 3), Err(Error::InvalidBoard)));
}

#[test]
fn score_is_zero_with_no_numbers_called() {
    let b = Board::new(board_rows(), 3).unwrap();
    assert_eq!(b.get_score(&cells(&[])), 0);
}

#[test]
fn score_counts_a_fully_called_row() {
    let b = Board::new(board_rows(), 3).unwrap();
    assert!(b.get_score(&cells(&[1, 2, 3])) >= 1);
    assert_eq!(b.get_score(&cells(&[1, 2, 3])), 1);
}

#[test]
fn score_grows_monotonically_with_more_calls() {
    let b = Board::new(board_rows(), 3).unwrap();
    let mut called: Vec<u32> = Vec::new();
    let mut last = 0;
    for v in 1..=9u32 {
        called.push(v);
        let s = b.get_score(&cells(&called));
        assert!(s >= last);
        last = s;
    }
    // Every row, column and both diagonals cleared.
    assert_eq!(last, 8);
}

#[test]
fn score_counts_columns_and_diagonals() {
    let b = Board::new(board_rows(), 3).unwrap();
    // First column of the row board.
    assert_eq!(b.get_score(&cells(&[1, 4, 7])), 1);
    // Main diagonal.
    assert_eq!(b.get_score(&cells(&[1, 5, 9])), 1);
    // Anti-diagonal.
    assert_eq!(b.get_score(&cells(&[3, 5, 7])), 1);
}

#[test]
fn winning_and_max_points_follow_the_board_size() {
    let b = Board::new(board_rows(), 3).unwrap();
    assert_eq!(b.wining_points(), 3);
    assert_eq!(b.max_points(), 8);
    assert!(!b.has_completed(&cells(&[1, 2, 3])));
    assert!(b.has_completed(&cells(&[1, 2, 3, 4, 5, 6, 7, 8, 9])));
}

fn game_player(id: &str, board: Option<Board>, connected: bool) -> GamePlayer {
    GamePlayer {
        player: player(id),
        data: PlayerGameData::BingoPlayerData(BingoPlayerData { board }),
        send_channel: if connected { Some(7) } else { None },
    }
}

fn running_bingo(turn: &str, called: &[u32]) -> Bingo {
    Bingo {
        board_size: 3,
        game_state: GameState::GameRunning(game_rooms::bingo::GameRunning {
            turn: turn.to_string(),
            selected_numbers: cells(called),
        }),
    }
}

#[test]
fn next_turn_skips_disconnected_players() {
    let players = vec![
        game_player("a", Some(Board::new(board_rows(), 3).unwrap()), true),
        game_player("b", Some(Board::new(board_cols(), 3).unwrap()), false),
        game_player("c", Some(Board::new(board_rows(), 3).unwrap()), true),
    ];
    let g = running_bingo("a", &[]);
    assert_eq!(g.get_next_turn_player(&players), Some("c".to_string()));
}

#[test]
fn next_turn_skips_completed_boards_and_cycles() {
    let players = vec![
        game_player("a", Some(Board::new(board_rows(), 3).unwrap()), true),
        game_player("b", Some(Board::new(board_cols(), 3).unwrap()), true),
        game_player("c", Some(Board::new(board_rows(), 3).unwrap()), true),
    ];
    let g = running_bingo("a", &[]);
    // Plain cycling: a -> b -> c -> a.
    assert_eq!(g.get_next_turn_player(&players), Some("b".to_string()));
    let g = running_bingo("b", &[]);
    assert_eq!(g.get_next_turn_player(&players), Some("c".to_string()));
    let g = running_bingo("c", &[]);
    assert_eq!(g.get_next_turn_player(&players), Some("a".to_string()));
    // Nobody eligible once every board is complete.
    let g = running_bingo("a", &[1, 2, 3, 4, 5, 6, 7, 8, 9]);
    assert_eq!(g.get_next_turn_player(&players), None);
}

#[test]
fn move_rejects_the_wrong_sender_and_stale_numbers() {
    let mut players = vec![
        game_player("a", Some(Board::new(board_rows(), 3).unwrap()), true),
        game_player("b", Some(Board::new(board_cols(), 3).unwrap()), true),
    ];
    let mut g = running_bingo("a", &[4]);
    assert_eq!(
        g.handle_player_message(&"b".to_string(), &mut players, BingoPlayerMessages::Move(5)),
        Err(Error::NotYourTurn)
    );
    assert_eq!(
        g.handle_player_message(&"a".to_string(), &mut players, BingoPlayerMessages::Move(4)),
        Err(Error::InvalidMove)
    );
    assert_eq!(
        g.handle_player_message(&"a".to_string(), &mut players, BingoPlayerMessages::Move(5)),
        Ok(())
    );
    match &g.game_state {
        GameState::GameRunning(run) => {
            assert_eq!(run.selected_numbers.len(), 2);
            assert_eq!(run.selected_numbers[1].cell_value, 5);
            assert_eq!(run.selected_numbers[1].selected_by, "a".to_string());
            // The turn passed to the other eligible player.
            assert_eq!(run.turn, "b".to_string());
        }
        GameState::BoardCreation(_) => panic!("game left its running phase"),
    }
}

#[test]
fn ready_board_flow_reaches_the_running_phase() {
    let mut players = vec![game_player("a", None, true), game_player("b", None, true)];
    let mut g = Bingo::start_game(
        BingoStart { board_size: 3 },
        &vec![player("a"), player("b")],
        &"a".to_string(),
    );
    assert!(!g.is_game_running());
    assert_eq!(
        g.handle_player_message(
            &"a".to_string(),
            &mut players,
            BingoPlayerMessages::Move(1)
        ),
        Err(Error::GameNotRunning)
    );
    let board_a = Board::new(board_rows(), 3).unwrap();
    assert_eq!(
        g.handle_player_message(
            &"a".to_string(),
            &mut players,
            BingoPlayerMessages::ReadyBoard(board_a)
        ),
        Ok(())
    );
    // The same player cannot submit twice.
    let again = Board::new(board_rows(), 3).unwrap();
    assert_eq!(
        g.handle_player_message(
            &"a".to_string(),
            &mut players,
            BingoPlayerMessages::ReadyBoard(again)
        ),
        Err(Error::BoardAlreadySet)
    );
    // An unknown player is rejected.
    let stray = Board::new(board_rows(), 3).unwrap();
    assert_eq!(
        g.handle_player_message(
            &"x".to_string(),
            &mut players,
            BingoPlayerMessages::ReadyBoard(stray)
        ),
        Err(Error::PlayerNotFound)
    );
    let board_b = Board::new(board_cols(), 3).unwrap();
    assert_eq!(
        g.handle_player_message(
            &"b".to_string(),
            &mut players,
            BingoPlayerMessages::ReadyBoard(board_b)
        ),
        Ok(())
    );
    // Everyone is ready: play begins with one of the players on turn.
    assert!(g.is_game_running());
    match &g.game_state {
        GameState::GameRunning(run) => {
            assert!(run.turn == "a" || run.turn == "b");
            assert!(run.selected_numbers.is_empty());
        }
        GameState::BoardCreation(_) => panic!("set-up did not finish"),
    }
    // A late board is rejected.
    let late = Board::new(board_rows(), 3).unwrap();
    assert_eq!(
        g.handle_player_message(
            &"a".to_string(),
            &mut players,
            BingoPlayerMessages::ReadyBoard(late)
        ),
        Err(Error::GameAlreadyRunning)
    );
}

#[test]
fn rankings_rank_by_score_then_by_how_early_it_was_reached() {
    // a clears a full row with the first three calls; b only later.
    let players = vec![
        game_player("a", Some(Board::new(board_rows(), 3).unwrap()), true),
        game_player("b", Some(Board::new(board_cols(), 3).unwrap()), true),
    ];
    // Calls 1,2,3 give a a row but b only a column...
    let g = running_bingo("a", &[1, 2, 3, 4, 5, 6, 7, 8, 9]);
    let ranks = g.get_rankings(&players);
    assert_eq!(ranks.len(), 2);
    // Both boards are clamped at the winning score, reached at the same
    // prefix, so the two players share rank one.
    assert_eq!(ranks[0].rank, 1);
    assert_eq!(ranks[1].rank, 1);
}

#[test]
fn rankings_break_ties_in_favour_of_the_earlier_score() {
    // a's board clears a line with the first three calls; b's only with
    // the fifth, and neither gets a second line out of this history.
    let players = vec![
        game_player("a", Some(Board::new(board_rows(), 3).unwrap()), true),
        game_player(
            "b",
            Some(Board::new(vec![vec![4, 5, 1], vec![3, 2, 6], vec![8, 7, 9]], 3).unwrap()),
            true,
        ),
    ];
    let g = running_bingo("a", &[1, 2, 3, 4, 5]);
    let ranks = g.get_rankings(&players);
    assert_eq!(ranks.len(), 2);
    assert_eq!(ranks[0].rank, 1);
    assert_eq!(ranks[0].player.id, "a".to_string());
    assert_eq!(ranks[1].rank, 2);
    assert_eq!(ranks[1].player.id, "b".to_string());
}

#[test]
fn game_ends_when_at_most_one_connected_player_is_below_the_winning_score() {
    let players = vec![
        game_player("a", Some(Board::new(board_rows(), 3).unwrap()), true),
        game_player("b", Some(Board::new(board_cols(), 3).unwrap()), true),
    ];
    let running = running_bingo("a", &[1, 2, 3]);
    assert!(!running.is_game_end(&players));
    let over = running_bingo("a", &[1, 2, 3, 4, 5, 6, 7, 8, 9]);
    assert!(over.is_game_end(&players));
    // In set-up, the game ends when at most one player is connected.
    let setup = Bingo {
        board_size: 3,
        game_state: GameState::BoardCreation(game_rooms::bingo::BoardCreation {
            ready: Vec::new(),
        }),
    };
    let one_connected = vec![game_player("a", None, true), game_player("b", None, false)];
    assert!(setup.is_game_end(&one_connected));
    let two_connected = vec![game_player("a", None, true), game_player("b", None, true)];
    assert!(!setup.is_game_end(&two_connected));
}
