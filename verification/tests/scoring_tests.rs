//! Scoring-engine tests: the simple whole-point estimates and the exact
//! dual-target evaluation. Scores come back in half-points: two half-points
//! per point.

use cctmog::cards::{Card, Rank, Suit};
use cctmog::scoring::{calculate_high_score, calculate_low_score, score_hand};

fn points(halves: Option<u64>) -> Option<f32> {
    halves.map(|h| h as f32 / 2.0)
}

#[test]
fn test_low_score_calculation() {
    let cards = vec![
        Card { rank: Rank::Ace, suit: Suit::Spades, face_up: true },
        Card { rank: Rank::Two, suit: Suit::Hearts, face_up: true },
        Card { rank: Rank::Three, suit: Suit::Clubs, face_up: true },
    ]; // Total = 6

    assert_eq!(calculate_low_score(&cards), Some(6));

    let high_cards = vec![
        Card { rank: Rank::King, suit: Suit::Spades, face_up: true },
        Card { rank: Rank::Queen, suit: Suit::Hearts, face_up: true },
    ]; // Total = 25 (too high for low)

    assert_eq!(calculate_low_score(&high_cards), None);
}

#[test]
fn test_high_score_calculation() {
    let cards = vec![
        Card { rank: Rank::King, suit: Suit::Spades, face_up: true },
        Card { rank: Rank::Queen, suit: Suit::Hearts, face_up: true },
        Card { rank: Rank::Two, suit: Suit::Clubs, face_up: true },
    ]; // Total = 27

    let (score, busted) = calculate_high_score(&cards);
    assert_eq!(score, 27);
    assert!(!busted);

    let bust_cards = vec![
        Card { rank: Rank::King, suit: Suit::Spades, face_up: true },
        Card { rank: Rank::Queen, suit: Suit::Hearts, face_up: true },
        Card { rank: Rank::Jack, suit: Suit::Clubs, face_up: true },
    ]; // Total = 36 (busted)

    let (score, busted) = calculate_high_score(&bust_cards);
    assert_eq!(score, 36);
    assert!(busted);
}

#[test]
fn test_seven_twenty_seven_scoring() {
    let test_cards = vec![
        Card { rank: Rank::Ace, suit: Suit::Spades, face_up: true },
        Card { rank: Rank::Two, suit: Suit::Hearts, face_up: true },
        Card { rank: Rank::Three, suit: Suit::Clubs, face_up: true },
    ];

    let score = score_hand(&test_cards);

    // A+2+3: Ace can be 1 or 11
    // Best under 7: 1+2+3 = 6 (valid)
    // Best under 27: 11+2+3 = 16 (better than 6, so this is chosen)
    assert_eq!(points(score.best_under_7), Some(6.0));
    assert_eq!(points(score.best_under_27), Some(16.0));
    assert!(!score.bust_27);

    // Face cards are worth half a point each.
    let face_cards = vec![
        Card { rank: Rank::Jack, suit: Suit::Spades, face_up: true },
        Card { rank: Rank::Queen, suit: Suit::Hearts, face_up: true },
        Card { rank: Rank::King, suit: Suit::Clubs, face_up: true },
        Card { rank: Rank::Ace, suit: Suit::Diamonds, face_up: true },
    ];

    let score = score_hand(&face_cards);

    // J(0.5) + Q(0.5) + K(0.5) + A(1 or 11)
    // For under 7: 0.5 + 0.5 + 0.5 + 1 = 2.5 (valid)
    // For under 27: 0.5 + 0.5 + 0.5 + 11 = 12.5 (better than 2.5)
    assert_eq!(points(score.best_under_7), Some(2.5));
    assert_eq!(points(score.best_under_27), Some(12.5));
    assert!(!score.bust_27);

    // Bust scenario.
    let bust_cards = vec![
        Card { rank: Rank::Ten, suit: Suit::Spades, face_up: true },
        Card { rank: Rank::Ten, suit: Suit::Hearts, face_up: true },
        Card { rank: Rank::Ten, suit: Suit::Clubs, face_up: true },
    ];

    let score = score_hand(&bust_cards);

    // 10+10+10 = 30 (busted)
    assert_eq!(score.best_under_7, None);
    assert_eq!(score.best_under_27, None);
    assert!(score.bust_27);
}

#[test]
fn empty_hand_scores_zero_without_busting() {
    let score = score_hand(&Vec::new());
    assert_eq!(score.best_under_7, Some(0));
    assert_eq!(score.dist_to_7, Some(14));
    assert_eq!(score.best_under_27, Some(0));
    assert_eq!(score.dist_to_27, Some(54));
    assert!(!score.bust_27);
}

#[test]
fn many_aces_pick_the_best_split() {
    // Three aces: 1+1+1=3 for low; 11+11+1=23 for high.
    let cards = vec![
        Card { rank: Rank::Ace, suit: Suit::Spades, face_up: false },
        Card { rank: Rank::Ace, suit: Suit::Hearts, face_up: false },
        Card { rank: Rank::Ace, suit: Suit::Clubs, face_up: false },
    ];
    let score = score_hand(&cards);
    assert_eq!(points(score.best_under_7), Some(3.0));
    assert_eq!(points(score.best_under_27), Some(23.0));
    assert_eq!(points(score.dist_to_27), Some(4.0));
    assert!(!score.bust_27);
}

#[test]
fn exact_seven_and_twenty_seven_hit_zero_distance() {
    let seven = vec![
        Card { rank: Rank::Three, suit: Suit::Spades, face_up: false },
        Card { rank: Rank::Four, suit: Suit::Hearts, face_up: false },
    ];
    let s = score_hand(&seven);
    assert_eq!(points(s.best_under_7), Some(7.0));
    assert_eq!(points(s.dist_to_7), Some(0.0));

    let twenty_seven = vec![
        Card { rank: Rank::Ten, suit: Suit::Spades, face_up: false },
        Card { rank: Rank::Ten, suit: Suit::Hearts, face_up: false },
        Card { rank: Rank::Seven, suit: Suit::Clubs, face_up: false },
    ];
    let s = score_hand(&twenty_seven);
    assert_eq!(points(s.best_under_27), Some(27.0));
    assert_eq!(points(s.dist_to_27), Some(0.0));
    assert!(!s.bust_27);
}
