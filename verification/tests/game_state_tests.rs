//! Tests over public snapshots: multi-player match bookkeeping played out on
//! the broadcast data model.

use cctmog::cards::{Card, Rank, Suit};
use cctmog::room::{GameVariant, Phase};
use cctmog::snapshot::{PublicPlayer, PublicRoom};

fn create_test_player(name: &str, seat: usize, chips: u64) -> PublicPlayer {
    PublicPlayer {
        id: (seat + 1) as u128,
        name: name.to_string(),
        seat,
        chips,
        folded: false,
        standing: false,
        up_cards: vec![],
        cards_count: 0,
        committed_round: 0,
        ready: false,
    }
}

fn create_test_room() -> PublicRoom {
    PublicRoom {
        room: "Test Room".to_string(),
        game_variant: GameVariant::SevenTwentySeven,
        dealer_seat: 0,
        to_act_seat: 0,
        pot: 0,
        ante: 50,
        phase: Phase::Lobby,
        players: vec![
            create_test_player("John", 0, 1000),
            create_test_player("Joe", 1, 1000),
            create_test_player("Frank", 2, 1000),
        ],
        in_betting: false,
        current_bet: 0,
        raises_made: 0,
        max_raises: 3,
        round: 0,
        limit_small: 10,
        limit_big: 20,
        community_cards: vec![],
        scheduled_start: None,
        checked_in_players: vec![],
        elected_players: vec![],
        current_dealer_id: None,
        available_variants: vec![
            GameVariant::SevenTwentySeven,
            GameVariant::Omaha,
            GameVariant::TexasHoldem,
        ],
    }
}

#[test]
fn test_full_three_player_match() {
    let mut room = create_test_room();

    room.phase = Phase::Acting;
    room.pot = 150; // 3 players * 50 ante
    room.round = 1;
    room.in_betting = false;

    for player in &mut room.players {
        player.cards_count = 2;
        player.chips -= room.ante;
        player.committed_round = room.ante;
    }

    assert_eq!(room.phase, Phase::Acting);
    assert_eq!(room.players.len(), 3);
    assert_eq!(room.pot, 150);

    // Draw phase: players take cards.
    room.players[0].cards_count = 5;
    room.players[1].cards_count = 4;
    room.players[2].cards_count = 3;

    room.players[0].up_cards = vec![
        Card { rank: Rank::Seven, suit: Suit::Hearts, face_up: true },
        Card { rank: Rank::Three, suit: Suit::Clubs, face_up: true },
        Card { rank: Rank::Ace, suit: Suit::Spades, face_up: true },
    ];
    room.players[1].up_cards = vec![
        Card { rank: Rank::King, suit: Suit::Diamonds, face_up: true },
        Card { rank: Rank::Queen, suit: Suit::Hearts, face_up: true },
    ];
    room.players[2].up_cards = vec![Card { rank: Rank::Ten, suit: Suit::Spades, face_up: true }];

    // Betting: John bets 100, Joe calls, Frank folds.
    room.in_betting = true;
    room.to_act_seat = 0;
    room.current_bet = 100;
    room.players[0].committed_round = 150;
    room.players[0].chips -= 100;
    room.pot += 100;

    room.players[1].committed_round = 150;
    room.players[1].chips -= 100;
    room.pot += 100;

    room.players[2].folded = true;

    assert_eq!(room.pot, 350); // 150 ante + 100 John + 100 Joe
    assert!(room.players[2].folded);
    assert!(!room.players[0].folded);
    assert!(!room.players[1].folded);

    // Second draw round.
    room.round = 2;
    room.in_betting = false;
    room.players[0].cards_count = 7;
    room.players[1].cards_count = 6;

    room.players[0].up_cards.extend(vec![
        Card { rank: Rank::Five, suit: Suit::Diamonds, face_up: true },
        Card { rank: Rank::Two, suit: Suit::Hearts, face_up: true },
    ]);
    room.players[1].up_cards.extend(vec![
        Card { rank: Rank::Nine, suit: Suit::Clubs, face_up: true },
        Card { rank: Rank::Four, suit: Suit::Spades, face_up: true },
    ]);

    // Final betting round: both check through.
    room.in_betting = true;
    room.current_bet = 0;

    room.phase = Phase::Showdown;

    let active_players: Vec<_> = room.players.iter().filter(|p| !p.folded).collect();
    assert_eq!(active_players.len(), 2);
    assert_eq!(active_players[0].name, "John");
    assert_eq!(active_players[1].name, "Joe");

    assert_eq!(room.pot, 350);
    assert_eq!(room.players[0].chips, 850); // 1000 - 50 ante - 100 bet
    assert_eq!(room.players[1].chips, 850); // 1000 - 50 ante - 100 bet
    assert_eq!(room.players[2].chips, 950); // 1000 - 50 ante (folded)
}

#[test]
fn test_player_cap() {
    let mut room = create_test_room();
    for i in 3..7 {
        room.players.push(create_test_player(&format!("Player{}", i), i, 1000));
    }
    assert_eq!(room.players.len(), 7);
}

#[test]
fn test_ante_collection() {
    let mut room = create_test_room();
    let initial_chips = room.players[0].chips;
    let ante = room.ante;

    room.pot = 0;
    for player in &mut room.players {
        player.chips -= ante;
        room.pot += ante;
    }

    assert_eq!(room.pot, ante * 3);
    assert_eq!(room.players[0].chips, initial_chips - ante);
}

#[test]
fn test_betting_limits() {
    let room = create_test_room();
    let small_limit = room.limit_small;
    let big_limit = room.limit_big;

    assert_eq!(small_limit, 10);
    assert_eq!(big_limit, 20);

    let round_1_bet = small_limit;
    let round_3_bet = big_limit;
    assert_eq!(round_1_bet, 10);
    assert_eq!(round_3_bet, 20);
}

#[test]
fn test_card_counting() {
    let mut room = create_test_room();

    assert_eq!(room.players[0].cards_count, 0);
    assert!(room.players[0].up_cards.is_empty());

    room.players[0].cards_count = 2;
    room.players[0].up_cards =
        vec![Card { rank: Rank::Ace, suit: Suit::Spades, face_up: true }];

    let total_cards = room.players[0].cards_count;
    let hole_cards = if total_cards >= room.players[0].up_cards.len() {
        total_cards - room.players[0].up_cards.len()
    } else {
        0
    };

    assert_eq!(hole_cards, 1);
}

#[test]
fn test_four_player_match() {
    let mut room = create_test_room();
    room.players.push(create_test_player("Santo", 3, 1000));

    room.phase = Phase::Acting;
    room.pot = 200; // 4 players * 50 ante
    room.round = 1;
    room.in_betting = false;

    for player in &mut room.players {
        player.cards_count = 2;
        player.chips -= room.ante;
        player.committed_round = room.ante;
    }

    assert_eq!(room.players.len(), 4);
    assert_eq!(room.pot, 200);

    room.players[0].cards_count = 4;
    room.players[1].cards_count = 3;
    room.players[2].cards_count = 5;
    room.players[3].cards_count = 4;

    // Betting: John bets, Joe calls, Frank raises, Santo folds.
    room.in_betting = true;
    room.current_bet = 100;

    room.players[0].committed_round = 150;
    room.players[0].chips -= 100;
    room.pot += 100;

    room.players[1].committed_round = 150;
    room.players[1].chips -= 100;
    room.pot += 100;

    room.players[2].committed_round = 200;
    room.players[2].chips -= 150;
    room.pot += 150;

    room.players[3].folded = true;

    let active_players: Vec<_> = room.players.iter().filter(|p| !p.folded).collect();
    assert_eq!(active_players.len(), 3);
    assert_eq!(room.pot, 550);
}

#[test]
fn test_five_player_match() {
    let mut room = create_test_room();
    room.players.push(create_test_player("Santo", 3, 1000));
    room.players.push(create_test_player("Eve", 4, 1000));

    room.phase = Phase::Acting;
    room.pot = 250; // 5 players * 50 ante
    room.round = 1;

    for player in &mut room.players {
        player.cards_count = 2;
        player.chips -= room.ante;
        player.committed_round = room.ante;
    }

    assert_eq!(room.players.len(), 5);
    assert_eq!(room.pot, 250);

    room.players[1].folded = true;
    room.players[3].folded = true;
    room.players[4].folded = true;

    let active_players: Vec<_> = room.players.iter().filter(|p| !p.folded).collect();
    assert_eq!(active_players.len(), 2);
}

#[test]
fn test_six_player_match() {
    let mut room = create_test_room();
    room.players.push(create_test_player("Santo", 3, 1500));
    room.players.push(create_test_player("Eve", 4, 800));
    room.players.push(create_test_player("Frank", 5, 1200));

    room.phase = Phase::Acting;
    room.pot = 300; // 6 players * 50 ante
    room.round = 2;

    for player in &mut room.players {
        player.cards_count = 3;
        player.chips -= room.ante;
        player.committed_round = room.ante;
    }

    assert_eq!(room.players.len(), 6);
    assert_eq!(room.pot, 300);

    room.in_betting = true;
    room.current_bet = room.limit_big;

    room.players[0].committed_round = room.ante + room.limit_big;
    room.players[0].chips -= room.limit_big;
    room.pot += room.limit_big;

    room.players[2].folded = true;
    room.players[4].folded = true;

    let active_players: Vec<_> = room.players.iter().filter(|p| !p.folded).collect();
    assert_eq!(active_players.len(), 4);
    assert_eq!(room.pot, 320);
}

#[test]
fn test_seven_player_max_match() {
    let mut room = create_test_room();
    room.players.push(create_test_player("Santo", 3, 2000));
    room.players.push(create_test_player("Eve", 4, 1500));
    room.players.push(create_test_player("Frank", 5, 1800));
    room.players.push(create_test_player("Grace", 6, 1200));

    room.phase = Phase::Acting;
    room.pot = 350; // 7 players * 50 ante
    room.round = 3;

    for player in &mut room.players {
        player.cards_count = 4;
        player.chips -= room.ante;
        player.committed_round = room.ante;
    }

    assert_eq!(room.players.len(), 7);
    assert_eq!(room.pot, 350);

    room.in_betting = true;
    room.current_bet = room.limit_big;
    room.raises_made = 2;

    let limit_big = room.limit_big;
    let mut total_additional_bets = 0;
    for (i, player) in room.players.iter_mut().enumerate() {
        match i {
            0 | 2 | 5 => {
                player.committed_round += limit_big;
                player.chips -= limit_big;
                total_additional_bets += limit_big;
            },
            1 | 4 => {
                player.folded = true;
            },
            _ => {
                player.committed_round += limit_big;
                player.chips -= limit_big;
                total_additional_bets += limit_big;
            },
        }
    }
    room.pot += total_additional_bets;

    let active_players: Vec<_> = room.players.iter().filter(|p| !p.folded).collect();
    assert_eq!(active_players.len(), 5);
    assert!(room.pot > 350);
}

#[test]
fn test_varied_chip_stacks_match() {
    let mut room = PublicRoom {
        room: "Varied Stakes Room".to_string(),
        game_variant: GameVariant::SevenTwentySeven,
        dealer_seat: 0,
        to_act_seat: 0,
        pot: 0,
        ante: 25,
        phase: Phase::Acting,
        players: vec![
            create_test_player("John", 0, 2500),
            create_test_player("Joe", 1, 100),
            create_test_player("Frank", 2, 500),
            create_test_player("Santo", 3, 75),
            create_test_player("Eve", 4, 1000),
        ],
        in_betting: true,
        current_bet: 25,
        raises_made: 0,
        max_raises: 3,
        round: 1,
        limit_small: 5,
        limit_big: 10,
        community_cards: vec![],
        scheduled_start: None,
        checked_in_players: vec![],
        elected_players: vec![],
        current_dealer_id: None,
        available_variants: vec![
            GameVariant::SevenTwentySeven,
            GameVariant::Omaha,
            GameVariant::TexasHoldem,
        ],
    };

    room.pot = room.ante * room.players.len() as u64;
    for player in &mut room.players {
        player.chips -= room.ante;
        player.committed_round = room.ante;
        player.cards_count = 2;
    }

    assert_eq!(room.players.len(), 5);
    assert_eq!(room.pot, 125);

    // Short stack player goes all-in.
    room.players[3].chips = 0;
    room.players[3].committed_round = 75;
    room.pot += 50;

    assert_eq!(room.players[3].chips, 0);
    assert_eq!(room.pot, 175);

    let total_chips: u64 =
        room.players.iter().map(|p| p.chips + p.committed_round).sum::<u64>();
    let expected_total = 2500 + 100 + 500 + 75 + 1000;
    assert_eq!(total_chips, expected_total);
}
