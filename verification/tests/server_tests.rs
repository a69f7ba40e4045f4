//! Tests over the room itself: seat management, chip commitment, validation,
//! dealer rotation, and the public-room conversion.

use cctmog::cards::{Card, Rank, Suit};
use cctmog::room::{
    alive_seats, bet_size_for_round, commit, seat_of, GameVariant, Phase, PlayerSeat, Room,
};
use cctmog::scoring::score_hand;
use cctmog::snapshot::{public_room, PublicPlayer, PublicRoom, TableInfo};
use cctmog::lifecycle::{can_take_card, next_dealer_left_of};
use std::collections::HashMap;

fn bare_seat(id: u128, name: &str, chips: u64) -> PlayerSeat {
    PlayerSeat {
        id,
        name: name.to_string(),
        chips,
        folded: false,
        standing: false,
        up_cards: vec![],
        down_cards: vec![],
        ready: false,
        committed_round: 0,
    }
}

#[test]
fn test_seat_finding() {
    let mut room = Room::new("test".to_string());
    let player_id: u128 = 42;

    // Player not in room.
    assert_eq!(seat_of(&room, player_id), None);

    // Add player.
    room.players.push(bare_seat(player_id, "Test", 1000));

    // Player found.
    assert_eq!(seat_of(&room, player_id), Some(0));
}

#[test]
fn test_distributed_table_registry() {
    let mut distributed_tables = HashMap::new();

    let table_info = TableInfo {
        name: "Test Distributed Table".to_string(),
        game_variant: GameVariant::SevenTwentySeven,
        player_count: 2,
        phase: Phase::Lobby,
        server_port: Some(9100),
    };

    distributed_tables.insert("Test Distributed Table".to_string(), table_info.clone());

    assert_eq!(distributed_tables.len(), 1);
    assert!(distributed_tables.contains_key("Test Distributed Table"));

    let registered_table = distributed_tables.get("Test Distributed Table").unwrap();
    assert_eq!(registered_table.server_port, Some(9100));
    assert_eq!(registered_table.game_variant, GameVariant::SevenTwentySeven);
}

#[test]
fn test_mixed_table_list() {
    let mut all_tables = Vec::new();

    all_tables.push(TableInfo {
        name: "Central Table 1".to_string(),
        game_variant: GameVariant::TexasHoldem,
        player_count: 4,
        phase: Phase::Acting,
        server_port: None,
    });
    all_tables.push(TableInfo {
        name: "Central Table 2".to_string(),
        game_variant: GameVariant::Omaha,
        player_count: 6,
        phase: Phase::Lobby,
        server_port: None,
    });
    all_tables.push(TableInfo {
        name: "Distributed Table 1".to_string(),
        game_variant: GameVariant::SevenTwentySeven,
        player_count: 2,
        phase: Phase::Acting,
        server_port: Some(9100),
    });
    all_tables.push(TableInfo {
        name: "Distributed Table 2".to_string(),
        game_variant: GameVariant::TexasHoldem,
        player_count: 3,
        phase: Phase::Showdown,
        server_port: Some(9101),
    });

    let central_tables: Vec<_> = all_tables.iter().filter(|t| t.server_port.is_none()).collect();
    let distributed_tables: Vec<_> =
        all_tables.iter().filter(|t| t.server_port.is_some()).collect();

    assert_eq!(central_tables.len(), 2);
    assert_eq!(distributed_tables.len(), 2);
    assert_eq!(all_tables.len(), 4);
}

#[test]
fn test_room_creation_and_management() {
    let room_name = "Test Room".to_string();
    let mut room = Room::new(room_name.clone());

    assert_eq!(room.name, "Test Room");
    assert_eq!(room.phase, Phase::Lobby);
    assert_eq!(room.players.len(), 0);
    assert_eq!(room.pot, 0);
    assert_eq!(room.ante, 10);

    room.game_variant = GameVariant::Omaha;
    room.ante = 25;
    room.limit_small = 15;
    room.limit_big = 30;
    room.max_raises = 4;

    assert_eq!(room.game_variant, GameVariant::Omaha);
    assert_eq!(room.ante, 25);
    assert_eq!(room.limit_small, 15);
    assert_eq!(room.limit_big, 30);
    assert_eq!(room.max_raises, 4);
}

#[test]
fn test_player_seat_management() {
    let room = Room::new("Seat Test Room".to_string());

    let player_id_1: u128 = 1;
    let player_id_2: u128 = 2;
    let player_id_3: u128 = 3;

    assert_eq!(seat_of(&room, player_id_1), None);

    let mut test_room = Room::new("Test Room".to_string());

    let mut seat1 = bare_seat(player_id_1, "Player 1", 1000);
    seat1.ready = true;
    test_room.players.push(seat1);

    let mut seat2 = bare_seat(player_id_2, "Player 2", 1500);
    seat2.folded = true;
    seat2.committed_round = 50;
    test_room.players.push(seat2);

    assert_eq!(seat_of(&test_room, player_id_1), Some(0));
    assert_eq!(seat_of(&test_room, player_id_2), Some(1));
    assert_eq!(seat_of(&test_room, player_id_3), None);

    let alive = alive_seats(&test_room);
    assert_eq!(alive.len(), 1);
    assert_eq!(test_room.players[alive[0]].name, "Player 1");
}

#[test]
fn test_betting_size_calculation() {
    let mut room = Room::new("Betting Test Room".to_string());
    room.limit_small = 25;
    room.limit_big = 50;

    room.round = 1;
    assert_eq!(bet_size_for_round(&room), 25);

    room.round = 2;
    assert_eq!(bet_size_for_round(&room), 25);

    room.round = 3;
    assert_eq!(bet_size_for_round(&room), 50);

    room.round = 4;
    assert_eq!(bet_size_for_round(&room), 50);
}

#[test]
fn test_chip_commitment() {
    let mut room = Room::new("Chip Test Room".to_string());
    let mut seat = bare_seat(7, "Test Player", 1000);
    seat.ready = true;
    room.players.push(seat);

    let initial_chips = room.players[0].chips;
    let initial_pot = room.pot;

    commit(&mut room, 0, 100);

    assert_eq!(room.players[0].chips, initial_chips - 100);
    assert_eq!(room.players[0].committed_round, 100);
    assert_eq!(room.pot, initial_pot + 100);

    // Committing more than the remaining chips clamps to an all-in.
    commit(&mut room, 0, 2000);

    assert_eq!(room.players[0].chips, 0);
    assert_eq!(room.players[0].committed_round, 1000);
    assert_eq!(room.pot, 1000);
}

#[test]
fn test_game_state_validation() {
    let mut room = Room::new("Validation Test Room".to_string());
    let player_id: u128 = 11;

    let mut seat = bare_seat(player_id, "Test Player", 1000);
    seat.ready = true;
    room.players.push(seat);
    room.draw_acted = vec![false];
    room.betting_acted = vec![false];

    room.phase = Phase::Acting;
    room.in_betting = false;
    room.to_act_seat = 0;

    let result = can_take_card(&room, player_id);
    assert!(result.is_ok());
    assert_eq!(result.unwrap(), 0);

    room.to_act_seat = 1;
    let result = can_take_card(&room, player_id);
    assert!(result.is_err());
    assert!(result.unwrap_err().contains("Not your turn"));

    room.to_act_seat = 0;
    room.players[0].folded = true;
    let result = can_take_card(&room, player_id);
    assert!(result.is_err());
    assert!(result.unwrap_err().contains("Player folded"));

    room.players[0].folded = false;
    room.players[0].standing = true;
    let result = can_take_card(&room, player_id);
    assert!(result.is_err());
    assert!(result.unwrap_err().contains("Player already standing"));
}

#[test]
fn test_dealer_rotation() {
    let mut room = Room::new("Dealer Test Room".to_string());

    for i in 0..3u128 {
        let mut seat = bare_seat(100 + i, &format!("Player {}", i + 1), 1000);
        seat.ready = true;
        room.players.push(seat);
    }

    let next_dealer_0 = next_dealer_left_of(&room, 0);
    assert!(next_dealer_0.is_some());
    assert_eq!(next_dealer_0.unwrap(), room.players[1].id);

    let next_dealer_1 = next_dealer_left_of(&room, 1);
    assert!(next_dealer_1.is_some());
    assert_eq!(next_dealer_1.unwrap(), room.players[2].id);

    let next_dealer_2 = next_dealer_left_of(&room, 2);
    assert!(next_dealer_2.is_some());
    assert_eq!(next_dealer_2.unwrap(), room.players[0].id);

    let empty_room = Room::new("Empty Room".to_string());
    let no_dealer = next_dealer_left_of(&empty_room, 0);
    assert!(no_dealer.is_none());
}

#[test]
fn test_public_room_conversion() {
    let mut room = Room::new("Public Test Room".to_string());

    room.game_variant = GameVariant::TexasHoldem;
    room.ante = 100;
    room.pot = 300;
    room.phase = Phase::Acting;
    room.dealer_seat = 1;
    room.to_act_seat = 2;
    room.round = 2;
    room.in_betting = true;
    room.current_bet = 50;
    room.raises_made = 1;
    room.max_raises = 3;
    room.limit_small = 25;
    room.limit_big = 50;

    let mut seat = bare_seat(77, "Test Player", 900);
    seat.ready = true;
    seat.committed_round = 100;
    seat.up_cards = vec![Card { rank: Rank::Ace, suit: Suit::Spades, face_up: true }];
    seat.down_cards = vec![Card { rank: Rank::King, suit: Suit::Hearts, face_up: false }];
    room.players.push(seat);

    let public = public_room(&room);

    assert_eq!(public.room, "Public Test Room");
    assert_eq!(public.game_variant, GameVariant::TexasHoldem);
    assert_eq!(public.ante, 100);
    assert_eq!(public.pot, 300);
    assert_eq!(public.phase, Phase::Acting);
    assert_eq!(public.dealer_seat, 1);
    assert_eq!(public.to_act_seat, 2);
    assert_eq!(public.round, 2);
    assert_eq!(public.in_betting, true);
    assert_eq!(public.current_bet, 50);
    assert_eq!(public.raises_made, 1);
    assert_eq!(public.max_raises, 3);
    assert_eq!(public.limit_small, 25);
    assert_eq!(public.limit_big, 50);
    assert_eq!(public.players.len(), 1);

    let public_player = &public.players[0];
    assert_eq!(public_player.name, "Test Player");
    assert_eq!(public_player.seat, 0);
    assert_eq!(public_player.chips, 900);
    assert_eq!(public_player.folded, false);
    assert_eq!(public_player.standing, false);
    assert_eq!(public_player.up_cards.len(), 1);
    assert_eq!(public_player.cards_count, 2); // 1 up + 1 down
    assert_eq!(public_player.committed_round, 100);
    assert_eq!(public_player.ready, true);
}

#[test]
fn test_full_seven_round_match_with_chat() {
    fn public_player(name: &str, seat: usize, chips: u64) -> PublicPlayer {
        PublicPlayer {
            id: (seat + 1) as u128,
            name: name.to_string(),
            seat,
            chips,
            folded: false,
            standing: false,
            up_cards: vec![],
            cards_count: 0,
            committed_round: 0,
            ready: false,
        }
    }

    let mut room = PublicRoom {
        room: "Test Room".to_string(),
        game_variant: GameVariant::SevenTwentySeven,
        dealer_seat: 0,
        to_act_seat: 0,
        pot: 0,
        ante: 50,
        phase: Phase::Lobby,
        players: vec![
            public_player("John", 0, 1000),
            public_player("Joe", 1, 1000),
            public_player("Frank", 2, 1000),
            public_player("Santo", 3, 1000),
            public_player("Bob", 4, 1000),
        ],
        in_betting: false,
        current_bet: 0,
        raises_made: 0,
        max_raises: 3,
        round: 0,
        limit_small: 10,
        limit_big: 20,
        community_cards: vec![],
        scheduled_start: None,
        checked_in_players: vec![],
        elected_players: vec![],
        current_dealer_id: None,
        available_variants: vec![
            GameVariant::SevenTwentySeven,
            GameVariant::Omaha,
            GameVariant::TexasHoldem,
        ],
    };

    room.phase = Phase::Acting;
    room.pot = 250; // 5 players * 50 ante
    room.round = 1;
    room.in_betting = false;
    room.dealer_seat = 0;
    room.to_act_seat = 1;

    for player in &mut room.players {
        player.chips -= room.ante;
        player.committed_round = room.ante;
        player.cards_count = 2;
    }

    // Round 1: draws then betting; Bob folds facing Santo's raise.
    let small = room.limit_small;
    room.in_betting = true;
    room.current_bet = small;

    room.players[1].chips -= small;
    room.players[1].committed_round += small;
    room.pot += small;

    room.players[2].chips -= small;
    room.players[2].committed_round += small;
    room.pot += small;

    room.current_bet = small * 2;
    room.players[3].chips -= small * 2;
    room.players[3].committed_round += small * 2;
    room.pot += small * 2;
    room.raises_made = 1;

    room.players[4].folded = true;

    room.players[0].chips -= small * 2;
    room.players[0].committed_round += small * 2;
    room.pot += small * 2;

    room.players[1].chips -= small;
    room.players[1].committed_round += small;
    room.pot += small;

    room.players[2].chips -= small;
    room.players[2].committed_round += small;
    room.pot += small;

    // Rounds 2 through 7: the survivors keep betting; Frank folds in round
    // 3 and John in round 6.
    let big = room.limit_big;
    for round_num in 2..=7u32 {
        room.round = round_num;
        room.in_betting = false;
        for player in &mut room.players {
            player.committed_round = 0;
        }
        room.in_betting = true;

        match round_num {
            2 => {
                for i in [1usize, 2, 3, 0] {
                    room.players[i].chips -= small;
                    room.players[i].committed_round = small;
                    room.pot += small;
                }
            },
            3 => {
                room.players[0].chips -= big * 2;
                room.players[0].committed_round = big * 2;
                room.pot += big * 2;
                room.players[1].chips -= big * 2;
                room.players[1].committed_round = big * 2;
                room.pot += big * 2;
                room.players[2].folded = true;
                room.players[3].chips -= big * 2;
                room.players[3].committed_round = big * 2;
                room.pot += big * 2;
                room.raises_made += 1;
            },
            4 | 5 => {
                for i in [0usize, 1, 3] {
                    room.players[i].chips -= big;
                    room.players[i].committed_round = big;
                    room.pot += big;
                }
            },
            6 => {
                room.players[0].folded = true;
                for i in [1usize, 3] {
                    room.players[i].chips -= big;
                    room.players[i].committed_round = big;
                    room.pot += big;
                }
            },
            _ => {
                for i in [1usize, 3] {
                    room.players[i].chips -= big;
                    room.players[i].committed_round = big;
                    room.pot += big;
                }
            },
        }
    }

    room.players[1].cards_count = 7;
    room.phase = Phase::Showdown;

    assert!(room.phase == Phase::Showdown);
    assert!(room.round == 7);
    assert!(room.pot > 500);
    let active_players: Vec<_> = room.players.iter().filter(|p| !p.folded).collect();
    assert_eq!(active_players.len(), 2); // Joe and Santo
}

#[test]
fn scoring_matches_simple_example_hand() {
    // A 3-4 hand hits the low target exactly.
    let cards = vec![
        Card { rank: Rank::Three, suit: Suit::Spades, face_up: true },
        Card { rank: Rank::Four, suit: Suit::Hearts, face_up: false },
    ];
    let s = score_hand(&cards);
    assert_eq!(s.best_under_7, Some(14)); // 7 points, in half-points
    assert_eq!(s.dist_to_7, Some(0));
}
