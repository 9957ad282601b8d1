use game_rooms::bluff::{Bluff, BluffPlayerData, BluffPlayerMessages, Card, CardColor, CardNum,
    StartBluff};
use game_rooms::boxes::{Boxes, BoxesPlayerData, BoxesPlayerMessages, BoxesStart, EdgeType, Move,
    PlayerColor};
use game_rooms::data::Player;
use game_rooms::games::PlayerGameData;
use game_rooms::logic::GamePlayer;
use game_rooms::Error;

fn player(id: &str) -> Player {
    Player { id: id.to_string(), name: id.to_string() }
}

fn boxes_player(id: &str, connected: bool) -> GamePlayer {
    GamePlayer {
        player: player(id),
        data: PlayerGameData::BoxesPlayerData(BoxesPlayerData {
            color: PlayerColor { red: 255, green: 0, blue: 0 },
        }),
        send_channel: if connected { Some(1) } else { None },
    }
}

fn one_box_game(turn: &str) -> Boxes {
    let b = Boxes::start_game(
        BoxesStart { board_width: 1, board_height: 1 },
        &vec![player("a"), player("b")],
        &"a".to_string(),
    )
    .unwrap();
    Boxes { turn: turn.to_string(), ..b }
}

#[test]
fn boxes_start_validates_its_dimensions() {
    let ok = Boxes::start_game(
        BoxesStart { board_width: 2, board_height: 3 },
        &vec![player("a")],
        &"a".to_string(),
    );
    let b = ok.unwrap();
    // 3 rows x 3 left-right edges, 4 rows x 2 top-bottom edges.
    assert_eq!(b.horizontal_edges.edges.len(), 9);
    assert_eq!(b.vertical_edges.edges.len(), 8);
    assert!(b.horizontal_edges.edges.iter().all(|e| matches!(e, EdgeType::Unoccupied(_))));
    let bad = Boxes::start_game(
        BoxesStart { board_width: 0, board_height: 3 },
        &vec![player("a")],
        &"a".to_string(),
    );
    assert!(matches!(bad, Err(Error::InvalidMove)));
    let huge = Boxes::start_game(
        BoxesStart { board_width: 40000, board_height: 1 },
        &vec![player("a")],
        &"a".to_string(),
    );
    assert!(matches!(huge, Err(Error::InvalidMove)));
}

#[test]
fn boxes_edges_carry_sequential_ids() {
    let b = one_box_game("a");
    // One box: left-right edges 1 and 2, then top-bottom edges 3 and 4.
    let h_ids: Vec<u32> = b.horizontal_edges.edges.iter().map(|e| e.edge_id()).collect();
    let v_ids: Vec<u32> = b.vertical_edges.edges.iter().map(|e| e.edge_id()).collect();
    assert_eq!(h_ids, vec![1, 2]);
    assert_eq!(v_ids, vec![3, 4]);
}

#[test]
fn boxes_moves_claim_edges_and_completing_a_box_keeps_the_turn() {
    let mut g = one_box_game("a");
    let mut players = vec![boxes_player("a", true), boxes_player("b", true)];
    // Not b's turn.
    assert_eq!(
        g.handle_player_message(
            &"b".to_string(),
            &mut players,
            BoxesPlayerMessages::Move(Move { edge_id: 1 })
        ),
        Err(Error::NotYourTurn)
    );
    // a claims edge 1; no box completed, so the turn passes to b.
    assert_eq!(
        g.handle_player_message(
            &"a".to_string(),
            &mut players,
            BoxesPlayerMessages::Move(Move { edge_id: 1 })
        ),
        Ok(())
    );
    assert_eq!(g.turn, "b".to_string());
    // Edge 1 cannot be claimed twice.
    assert_eq!(
        g.handle_player_message(
            &"b".to_string(),
            &mut players,
            BoxesPlayerMessages::Move(Move { edge_id: 1 })
        ),
        Err(Error::InvalidMove)
    );
    // An unknown edge is rejected.
    assert_eq!(
        g.handle_player_message(
            &"b".to_string(),
            &mut players,
            BoxesPlayerMessages::Move(Move { edge_id: 99 })
        ),
        Err(Error::InvalidMove)
    );
    assert_eq!(
        g.handle_player_message(
            &"b".to_string(),
            &mut players,
            BoxesPlayerMessages::Move(Move { edge_id: 2 })
        ),
        Ok(())
    );
    assert_eq!(g.turn, "a".to_string());
    assert_eq!(
        g.handle_player_message(
            &"a".to_string(),
            &mut players,
            BoxesPlayerMessages::Move(Move { edge_id: 3 })
        ),
        Ok(())
    );
    assert_eq!(g.turn, "b".to_string());
    assert!(!g.is_game_end(&players));
    // b claims the last edge, completes the box, owns it and keeps the
    // turn; the game is over.
    assert_eq!(
        g.handle_player_message(
            &"b".to_string(),
            &mut players,
            BoxesPlayerMessages::Move(Move { edge_id: 4 })
        ),
        Ok(())
    );
    assert_eq!(g.turn, "b".to_string());
    assert_eq!(g.get_score(&"b".to_string()), 1);
    assert_eq!(g.get_score(&"a".to_string()), 0);
    assert!(g.is_game_end(&players));
    let cells = g.get_cells();
    assert_eq!(cells.len(), 1);
    assert_eq!(cells[0].len(), 1);
    assert_eq!(cells[0][0].occupied_by, Some("b".to_string()));
    // Rankings: b first, a second.
    let ranks = g.get_rankings(&players);
    assert_eq!(ranks.len(), 2);
    assert_eq!(ranks[0].player.id, "b".to_string());
    assert_eq!(ranks[0].rank, 1);
    assert_eq!(ranks[1].player.id, "a".to_string());
    assert_eq!(ranks[1].rank, 2);
}

#[test]
fn boxes_game_ends_without_two_connected_players() {
    let g = one_box_game("a");
    // Nobody connected: over.
    let players = vec![boxes_player("a", false), boxes_player("b", false)];
    assert!(g.is_game_end(&players));
    assert_eq!(g.get_next_turn_player(&players), None);
    // A single connected player cannot keep playing alone: over.
    let one_left = vec![boxes_player("a", true), boxes_player("b", false)];
    assert!(g.is_game_end(&one_left));
    // Two connected players with free boxes: the game goes on.
    let two = vec![boxes_player("a", true), boxes_player("b", true)];
    assert!(!g.is_game_end(&two));
}

#[test]
fn boxes_colors_spread_over_the_roster() {
    let roster = vec![player("a"), player("b"), player("c")];
    let start = BoxesStart { board_width: 1, board_height: 1 };
    let ca = Boxes::create_player_data(&start, &roster, &"a".to_string()).color;
    let cb = Boxes::create_player_data(&start, &roster, &"b".to_string()).color;
    let cc = Boxes::create_player_data(&start, &roster, &"c".to_string()).color;
    // Hue 0, 120 and 240: red, green and blue.
    assert_eq!(ca, PlayerColor { red: 255, green: 0, blue: 0 });
    assert_eq!(cb, PlayerColor { red: 0, green: 255, blue: 0 });
    assert_eq!(cc, PlayerColor { red: 0, green: 0, blue: 255 });
}

#[test]
fn cards_decode_rank_and_suit_from_deck_positions() {
    assert_eq!(
        Card::from_number(0),
        Card { number: CardNum::Ace, color: CardColor::Spade }
    );
    assert_eq!(
        Card::from_number(12),
        Card { number: CardNum::King, color: CardColor::Spade }
    );
    assert_eq!(
        Card::from_number(13),
        Card { number: CardNum::Ace, color: CardColor::Heart }
    );
    assert_eq!(
        Card::from_number(51),
        Card { number: CardNum::King, color: CardColor::Diamond }
    );
}

fn bluff_player(id: &str, cards: Vec<Card>, connected: bool) -> GamePlayer {
    GamePlayer {
        player: player(id),
        data: PlayerGameData::BluffPlayerData(BluffPlayerData { cards, end_turn_raised: false }),
        send_channel: if connected { Some(1) } else { None },
    }
}

#[test]
fn bluff_deals_equal_disjoint_hands() {
    let roster = vec![player("a"), player("b")];
    let start = StartBluff { seed: 11 };
    let ha = Bluff::create_player_data(&start, &roster, &"a".to_string());
    let hb = Bluff::create_player_data(&start, &roster, &"b".to_string());
    assert_eq!(ha.cards.len(), 26);
    assert_eq!(hb.cards.len(), 26);
    assert!(!ha.end_turn_raised);
    for c in &ha.cards {
        assert!(!hb.cards.contains(c));
    }
    // The same seed deals the same hand.
    let again = Bluff::create_player_data(&start, &roster, &"a".to_string());
    assert_eq!(ha.cards, again.cards);
}

#[test]
fn bluff_start_collects_the_undealt_deck() {
    let roster = vec![player("a"), player("b"), player("c")];
    let start = StartBluff { seed: 3 };
    let ha = Bluff::create_player_data(&start, &roster, &"a".to_string());
    let hb = Bluff::create_player_data(&start, &roster, &"b".to_string());
    let hc = Bluff::create_player_data(&start, &roster, &"c".to_string());
    let g = Bluff::start_game(StartBluff { seed: 3 }, &roster, &"a".to_string());
    // Three players hold 17 cards each; one card stays in the deck, and
    // it belongs to nobody's hand.
    assert_eq!(g.deck_card.len(), 52 - 3 * 17);
    for c in &g.deck_card {
        assert!(!ha.cards.contains(c));
        assert!(!hb.cards.contains(c));
        assert!(!hc.cards.contains(c));
    }
    assert_eq!(g.turn, "a".to_string());
    assert_eq!(g.turn_start, "a".to_string());
    assert!(g.centered_card.is_empty());
    assert!(g.claimed.is_none());
}

#[test]
fn bluff_deal_moves_cards_to_the_centre_and_passes_the_turn() {
    let c0 = Card::from_number(0);
    let c1 = Card::from_number(1);
    let c2 = Card::from_number(2);
    let c3 = Card::from_number(3);
    let mut players = vec![
        bluff_player("a", vec![c0, c1], true),
        bluff_player("b", vec![c2, c3], true),
    ];
    let mut g = Bluff {
        turn_start: "a".to_string(),
        turn: "a".to_string(),
        centered_card: Vec::new(),
        deck_card: Vec::new(),
        claimed: None,
    };
    assert_eq!(
        g.handle_player_message(
            &"b".to_string(),
            &mut players,
            BluffPlayerMessages::Deal(vec![c2], c2)
        ),
        Err(Error::NotYourTurn)
    );
    assert_eq!(
        g.handle_player_message(
            &"a".to_string(),
            &mut players,
            BluffPlayerMessages::Deal(vec![c0], c0)
        ),
        Ok(())
    );
    assert_eq!(g.centered_card.len(), 1);
    assert_eq!(g.claimed, Some(c0));
    assert_eq!(g.turn, "b".to_string());
    match &players[0].data {
        PlayerGameData::BluffPlayerData(d) => assert_eq!(d.cards, vec![c1]),
        _ => panic!("the dealer's entry lost its hand"),
    }
    // A different claim in the middle of the round is rejected.
    assert_eq!(
        g.handle_player_message(
            &"b".to_string(),
            &mut players,
            BluffPlayerMessages::Deal(vec![c2], c3)
        ),
        Err(Error::InvalidMove)
    );
}

#[test]
fn bluff_flip_resolves_a_bluff_against_the_dealer() {
    let c0 = Card::from_number(0);
    let c1 = Card::from_number(1);
    let c2 = Card::from_number(2);
    let c3 = Card::from_number(3);
    let mut players = vec![
        bluff_player("a", vec![c0, c1], true),
        bluff_player("b", vec![c2, c3], true),
    ];
    let mut g = Bluff {
        turn_start: "a".to_string(),
        turn: "a".to_string(),
        centered_card: Vec::new(),
        deck_card: Vec::new(),
        claimed: None,
    };
    // a deals card zero but claims card one: a bluff.
    assert_eq!(
        g.handle_player_message(
            &"a".to_string(),
            &mut players,
            BluffPlayerMessages::Deal(vec![c0], c1)
        ),
        Ok(())
    );
    assert_eq!(g.turn, "b".to_string());
    // b flips: the claim was false, so the pile goes back to the dealer
    // and the dealer opens the next round.
    assert_eq!(
        g.handle_player_message(&"b".to_string(), &mut players, BluffPlayerMessages::Flip),
        Ok(())
    );
    assert!(g.centered_card.is_empty());
    assert!(g.claimed.is_none());
    assert_eq!(g.turn, "a".to_string());
    assert_eq!(g.turn_start, "a".to_string());
    match &players[0].data {
        PlayerGameData::BluffPlayerData(d) => assert_eq!(d.cards, vec![c1, c0]),
        _ => panic!("the dealer's entry lost its hand"),
    }
}

#[test]
fn bluff_flip_rewards_a_truthful_deal() {
    let c0 = Card::from_number(0);
    let c2 = Card::from_number(2);
    let mut players = vec![
        bluff_player("a", vec![c0], true),
        bluff_player("b", vec![c2], true),
    ];
    let mut g = Bluff {
        turn_start: "a".to_string(),
        turn: "a".to_string(),
        centered_card: Vec::new(),
        deck_card: Vec::new(),
        claimed: None,
    };
    assert_eq!(
        g.handle_player_message(
            &"a".to_string(),
            &mut players,
            BluffPlayerMessages::Deal(vec![c0], c0)
        ),
        Ok(())
    );
    // b flips a truthful deal: b takes the pile and opens the next round.
    assert_eq!(
        g.handle_player_message(&"b".to_string(), &mut players, BluffPlayerMessages::Flip),
        Ok(())
    );
    assert_eq!(g.turn, "b".to_string());
    assert_eq!(g.turn_start, "b".to_string());
    match &players[1].data {
        PlayerGameData::BluffPlayerData(d) => assert_eq!(d.cards, vec![c2, c0]),
        _ => panic!("the challenger's entry lost its hand"),
    }
}

#[test]
fn bluff_round_end_votes_return_the_centre_to_the_deck() {
    let c0 = Card::from_number(0);
    let c1 = Card::from_number(1);
    let c2 = Card::from_number(2);
    let mut players = vec![
        bluff_player("a", vec![c0, c1], true),
        bluff_player("b", vec![c2], true),
    ];
    let mut g = Bluff {
        turn_start: "a".to_string(),
        turn: "a".to_string(),
        centered_card: Vec::new(),
        deck_card: Vec::new(),
        claimed: None,
    };
    assert_eq!(
        g.handle_player_message(
            &"a".to_string(),
            &mut players,
            BluffPlayerMessages::Deal(vec![c0], c0)
        ),
        Ok(())
    );
    // One vote is not enough.
    assert_eq!(
        g.handle_player_message(
            &"a".to_string(),
            &mut players,
            BluffPlayerMessages::RaiseEndRound
        ),
        Ok(())
    );
    assert_eq!(g.centered_card.len(), 1);
    // The second vote ends the round: the pile joins the deck, the votes
    // clear, and the next eligible player after the opener starts.
    assert_eq!(
        g.handle_player_message(
            &"b".to_string(),
            &mut players,
            BluffPlayerMessages::RaiseEndRound
        ),
        Ok(())
    );
    assert!(g.centered_card.is_empty());
    assert_eq!(g.deck_card, vec![c0]);
    assert!(g.claimed.is_none());
    assert_eq!(g.turn, "b".to_string());
    assert_eq!(g.turn_start, "b".to_string());
    for p in &players {
        match &p.data {
            PlayerGameData::BluffPlayerData(d) => assert!(!d.end_turn_raised),
            _ => panic!("a bluff roster entry changed variant"),
        }
    }
}

#[test]
fn bluff_pass_and_rankings_and_end() {
    let c0 = Card::from_number(0);
    let c1 = Card::from_number(1);
    let c2 = Card::from_number(2);
    let mut players = vec![
        bluff_player("a", vec![c0, c1], true),
        bluff_player("b", vec![c2], true),
    ];
    let mut g = Bluff {
        turn_start: "a".to_string(),
        turn: "a".to_string(),
        centered_card: Vec::new(),
        deck_card: Vec::new(),
        claimed: None,
    };
    assert_eq!(
        g.handle_player_message(&"a".to_string(), &mut players, BluffPlayerMessages::Pass),
        Ok(())
    );
    assert_eq!(g.turn, "b".to_string());
    // Fewer cards rank better: b leads.
    let ranks = g.get_rankings(&players);
    assert_eq!(ranks[0].player.id, "b".to_string());
    assert_eq!(ranks[0].rank, 1);
    assert_eq!(ranks[1].player.id, "a".to_string());
    assert_eq!(ranks[1].rank, 2);
    assert!(!g.is_game_end(&players));
    // Once only one player still holds cards, the game is over.
    let done = vec![
        bluff_player("a", vec![c0], true),
        bluff_player("b", Vec::new(), true),
    ];
    assert!(g.is_game_end(&done));
}
