//! End-to-end tests that drive whole hands through the engine's verified
//! operations: dealing, draw and betting turns, fold shortcuts, showdown
//! payout, dealer rotation and the error surface.

use cctmog::betting::{player_bet_or_raise, player_call, player_check, HandFlow};
use cctmog::cards::{Card, Deck, Rank, Suit};
use cctmog::draw::{player_fold, player_stand, player_take_card};
use cctmog::errors::ActionError;
use cctmog::lifecycle::{
    add_player, check_in, handle_choose_game_variant, handle_continue_to_next_game,
    handle_delegate_dealer, handle_elect_to_start, join_as_spectator, join_room, new_with_config,
    remove_player, remove_spectator, schedule_game, select_game_variant, sit_ready, start_hand,
    JoinOutcome,
};
use cctmog::room::{GameVariant, Phase, Room, MAX_PLAYERS};
use cctmog::showdown::ShowdownReport;

fn room_with_players(n: usize, ante: u64) -> Room {
    let mut r = Room::new("table".to_string());
    r.ante = ante;
    for i in 0..n {
        let seat = add_player(&mut r, (i + 1) as u128, format!("p{}", i + 1));
        assert_eq!(seat, i);
    }
    r
}

fn total_wealth(r: &Room) -> u64 {
    r.pot + r.players.iter().map(|p| p.chips).sum::<u64>()
}

/// Runs one full seven-twenty-seven hand: everyone stands at once, one
/// betting round of checks, then showdown. Returns the showdown report.
fn play_stand_and_check_hand(r: &mut Room) -> ShowdownReport {
    let n = r.players.len();
    // Draw phase: every seat stands in turn.
    let mut done = false;
    for _ in 0..n {
        let actor = r.players[r.to_act_seat].id;
        match player_stand(r, actor).unwrap() {
            HandFlow::Continued => {},
            HandFlow::NewBettingRound => {
                done = true;
                break;
            },
            _ => panic!("standing must not end the hand"),
        }
    }
    assert!(done);
    assert!(r.in_betting);
    // Betting phase: every seat checks in turn.
    for _ in 0..n {
        let actor = r.players[r.to_act_seat].id;
        match player_check(r, actor).unwrap() {
            HandFlow::Continued => {},
            HandFlow::HandDone(rep) => {
                return rep;
            },
            _ => panic!("checking through must end at showdown"),
        }
    }
    panic!("betting round did not close");
}

#[test]
fn ante_collection_and_deal_open_the_hand() {
    let mut r = room_with_players(3, 50);
    for p in &mut r.players {
        p.ready = true;
    }
    start_hand(&mut r, 1).unwrap();
    assert_eq!(r.phase, Phase::Acting);
    assert_eq!(r.pot, 150);
    assert_eq!(r.round, 1);
    assert!(!r.in_betting);
    for p in &r.players {
        assert_eq!(p.chips, 950);
        assert_eq!(p.committed_round, 50);
        assert_eq!(p.up_cards.len(), 1);
        assert_eq!(p.down_cards.len(), 1);
    }
    assert_eq!(r.deck.as_ref().unwrap().cards.len(), 52 - 6);
}

#[test]
fn full_hand_conserves_chips_and_rotates_dealer() {
    let mut r = room_with_players(3, 50);
    let wealth_before = total_wealth(&r);
    for p in &mut r.players {
        p.ready = true;
    }
    start_hand(&mut r, 1).unwrap();
    let pot = r.pot;
    let rep = play_stand_and_check_hand(&mut r);

    assert_eq!(r.phase, Phase::Comments);
    assert_eq!(r.pot, 0);
    assert_eq!(r.dealer_seat, 1); // rotated one seat left

    // Every chip paid out came from the pot; the rest of the pot (odd split
    // remainders) is forfeited, never duplicated.
    let paid: u64 = rep.payouts.iter().map(|(_, amt)| amt).sum();
    assert!(paid <= pot);
    assert_eq!(total_wealth(&r), wealth_before - (pot - paid));

    // The reveal covers every seat.
    assert_eq!(rep.reveal.len(), 3);
    assert_eq!(rep.new_dealer_id, Some(r.players[1].id));
}

#[test]
fn dealer_advances_once_per_hand() {
    let mut r = room_with_players(3, 10);
    let initial_dealer = r.dealer_seat;
    let hands = 4;
    for k in 0..hands {
        for p in &mut r.players {
            p.ready = true;
        }
        r.phase = Phase::Lobby;
        start_hand(&mut r, 1).unwrap();
        play_stand_and_check_hand(&mut r);
        assert_eq!(r.dealer_seat, (initial_dealer + k + 1) % 3);
    }
    assert_eq!(r.dealer_seat, (initial_dealer + hands) % 3);
}

#[test]
fn folding_to_one_survivor_awards_the_whole_pot() {
    let mut r = room_with_players(3, 50);
    for p in &mut r.players {
        p.ready = true;
    }
    start_hand(&mut r, 1).unwrap();
    let pot = r.pot;
    let survivor = r.players[2].id;
    let survivor_chips = r.players[2].chips;

    let first = r.players[0].id;
    match player_fold(&mut r, first).unwrap() {
        HandFlow::Continued => {},
        _ => panic!("first fold leaves two players in the hand"),
    }
    let second = r.players[1].id;
    let rep = match player_fold(&mut r, second).unwrap() {
        HandFlow::HandDone(rep) => rep,
        _ => panic!("second fold must end the hand at once"),
    };

    // The hand jumps straight to the comments phase and the survivor takes
    // the entire pot, with no scored winners.
    assert_eq!(r.phase, Phase::Comments);
    assert_eq!(r.players[2].chips, survivor_chips + pot);
    assert_eq!(rep.payouts, vec![(survivor, pot)]);
    assert!(rep.winners7.is_empty());
    assert!(rep.winners27.is_empty());
}

#[test]
fn betting_round_with_bet_call_and_raise_cap() {
    let mut r = room_with_players(3, 50);
    for p in &mut r.players {
        p.ready = true;
    }
    start_hand(&mut r, 1).unwrap();
    // All stand to reach betting.
    for _ in 0..3 {
        let actor = r.players[r.to_act_seat].id;
        player_stand(&mut r, actor).unwrap();
    }
    assert!(r.in_betting);
    assert_eq!(r.current_bet, 0);

    // Opening bet uses the small limit in round one.
    let opener = r.players[r.to_act_seat].id;
    player_bet_or_raise(&mut r, opener, false).unwrap();
    assert_eq!(r.current_bet, 10);
    assert_eq!(r.raises_made, 1);

    // Raises stack until the cap, then are refused.
    for expected in 2..=3u32 {
        let actor = r.players[r.to_act_seat].id;
        player_bet_or_raise(&mut r, actor, true).unwrap();
        assert_eq!(r.raises_made, expected);
        assert!(r.raises_made <= r.max_raises);
    }
    let actor = r.players[r.to_act_seat].id;
    assert!(matches!(player_bet_or_raise(&mut r, actor, true), Err(ActionError::RaiseCapReached)));

    // Calling closes the round; everyone ends up matched.
    loop {
        let actor = r.players[r.to_act_seat].id;
        match player_call(&mut r, actor).unwrap() {
            HandFlow::Continued => {},
            HandFlow::HandDone(_) => break,
            HandFlow::NewDrawRound => panic!("all seats stand, so the hand must show down"),
            HandFlow::NewBettingRound => panic!("a call never reopens drawing"),
        }
    }
    assert_eq!(r.phase, Phase::Comments);
}

#[test]
fn betting_errors_are_reported_precisely() {
    let mut r = room_with_players(3, 50);
    for p in &mut r.players {
        p.ready = true;
    }
    // Betting actions outside the acting phase.
    assert!(matches!(player_check(&mut r, 1), Err(ActionError::WrongPhase)));
    start_hand(&mut r, 1).unwrap();
    // Betting actions during the draw sub-phase.
    assert!(matches!(player_check(&mut r, 1), Err(ActionError::NotInBetting)));
    assert!(matches!(player_call(&mut r, 1), Err(ActionError::NotInBetting)));
    // Draw actions from the wrong seat.
    let to_act = r.to_act_seat;
    let wrong = r.players[(to_act + 1) % 3].id;
    assert!(matches!(player_stand(&mut r, wrong), Err(ActionError::NotYourTurn)));
    assert_eq!(player_take_card(&mut r, 99).unwrap_err(), ActionError::NotSeated);

    // Reach betting and probe its guards.
    for _ in 0..3 {
        let actor = r.players[r.to_act_seat].id;
        player_stand(&mut r, actor).unwrap();
    }
    let actor = r.players[r.to_act_seat].id;
    assert!(matches!(player_stand(&mut r, actor), Err(ActionError::InBetting)));
    assert_eq!(player_take_card(&mut r, actor).unwrap_err(), ActionError::InBetting);
    assert!(matches!(player_call(&mut r, actor), Err(ActionError::NoBetToCall)));
    assert!(matches!(player_bet_or_raise(&mut r, actor, true), Err(ActionError::NoBetToRaise)));
    player_bet_or_raise(&mut r, actor, false).unwrap();
    let actor = r.players[r.to_act_seat].id;
    assert!(matches!(player_check(&mut r, actor), Err(ActionError::CannotCheckFacingBet)));
    assert!(matches!(player_bet_or_raise(&mut r, actor, false), Err(ActionError::BetAlreadyMade)));
}

#[test]
fn drawing_cards_busts_or_continues() {
    let mut r = room_with_players(2, 10);
    for p in &mut r.players {
        p.ready = true;
    }
    start_hand(&mut r, 1).unwrap();

    // The seat to act draws until it busts, stands at the variant cap, or
    // the turn engine moves the round on.
    let actor_seat = r.to_act_seat;
    let actor = r.players[actor_seat].id;
    let mut drew = 0;
    loop {
        if r.in_betting || r.phase != Phase::Acting || r.to_act_seat != actor_seat {
            break;
        }
        let held = r.players[actor_seat].up_cards.len() + r.players[actor_seat].down_cards.len();
        if held >= 7 {
            assert_eq!(player_take_card(&mut r, actor).unwrap_err(), ActionError::MaxCardsReached);
            break;
        }
        let out = player_take_card(&mut r, actor).unwrap();
        drew += 1;
        assert!(!out.card.unwrap().face_up);
        if out.busted {
            assert!(r.players[actor_seat].folded || r.phase == Phase::Comments);
            break;
        }
    }
    assert!(drew >= 1);
}

#[test]
fn take_card_requires_a_deck_in_play() {
    let mut r = room_with_players(2, 10);
    r.phase = Phase::Acting;
    r.in_betting = false;
    r.to_act_seat = 0;
    r.draw_acted = vec![false, false];
    r.betting_acted = vec![false, false];
    r.deck = None;
    assert_eq!(player_take_card(&mut r, 1).unwrap_err(), ActionError::DeckMissing);
}

#[test]
fn start_hand_guards_are_enforced() {
    let mut r = room_with_players(1, 10);
    assert!(matches!(start_hand(&mut r, 99), Err(ActionError::NotSeated)));
    assert!(matches!(start_hand(&mut r, 1), Err(ActionError::NeedTwoPlayers)));
    let seat = add_player(&mut r, 2, "p2".to_string());
    assert_eq!(seat, 1);
    assert!(matches!(start_hand(&mut r, 1), Err(ActionError::NotAllReady)));
    r.players[0].ready = true;
    r.players[1].ready = true;
    r.phase = Phase::Comments;
    assert!(matches!(start_hand(&mut r, 1), Err(ActionError::WrongPhase)));
    r.phase = Phase::Lobby;
    assert!(start_hand(&mut r, 1).is_ok());
}

#[test]
fn sit_ready_auto_starts_when_everyone_is_ready() {
    let mut r = room_with_players(2, 10);
    assert_eq!(sit_ready(&mut r, 1).unwrap(), false);
    assert_eq!(sit_ready(&mut r, 2).unwrap(), true);
    assert_eq!(r.phase, Phase::Acting);
    assert!(matches!(sit_ready(&mut r, 99), Err(ActionError::NotSeated)));
}

#[test]
fn community_variants_deal_hole_cards_and_a_flop() {
    let mut r = room_with_players(2, 10);
    select_game_variant(&mut r, 1, GameVariant::Omaha).unwrap();
    for p in &mut r.players {
        p.ready = true;
    }
    start_hand(&mut r, 1).unwrap();
    assert_eq!(r.phase, Phase::Acting);
    assert!(r.in_betting);
    assert_eq!(r.community_cards.len(), 3);
    for p in &r.players {
        assert_eq!(p.down_cards.len(), 4);
        assert_eq!(p.up_cards.len(), 0);
    }
    assert_eq!(r.deck.as_ref().unwrap().cards.len(), 52 - 2 * 4 - 3);

    let mut r2 = room_with_players(2, 10);
    select_game_variant(&mut r2, 1, GameVariant::TexasHoldem).unwrap();
    for p in &mut r2.players {
        p.ready = true;
    }
    start_hand(&mut r2, 1).unwrap();
    assert_eq!(r2.community_cards.len(), 3);
    for p in &r2.players {
        assert_eq!(p.down_cards.len(), 2);
    }
}

#[test]
fn dealer_election_path_reaches_dealing() {
    let mut r = room_with_players(3, 10);
    assert!(matches!(handle_elect_to_start(&mut r, 1), Err(ActionError::NeedFourPlayers)));
    add_player(&mut r, 4, "p4".to_string());

    assert_eq!(handle_elect_to_start(&mut r, 1).unwrap(), false);
    assert_eq!(handle_elect_to_start(&mut r, 1).unwrap(), false); // idempotent
    assert_eq!(handle_elect_to_start(&mut r, 2).unwrap(), false);
    assert_eq!(handle_elect_to_start(&mut r, 3).unwrap(), false);
    assert_eq!(handle_elect_to_start(&mut r, 4).unwrap(), true);
    assert_eq!(r.phase, Phase::DealerSelection);

    assert!(matches!(handle_delegate_dealer(&mut r, 1, 99), Err(ActionError::DealerNotSeated)));
    handle_delegate_dealer(&mut r, 1, 2).unwrap();
    assert_eq!(r.phase, Phase::GameSelection);
    assert_eq!(r.current_dealer_id, Some(2));

    assert!(matches!(
        handle_choose_game_variant(&mut r, 3, GameVariant::Omaha),
        Err(ActionError::NotDealer)
    ));
    handle_choose_game_variant(&mut r, 2, GameVariant::SevenTwentySeven).unwrap();
    assert_eq!(r.phase, Phase::Acting);
    assert_eq!(r.pot, 40);
}

#[test]
fn comments_phase_continues_to_the_right_lobby() {
    let mut r = room_with_players(2, 10);
    for p in &mut r.players {
        p.ready = true;
    }
    start_hand(&mut r, 1).unwrap();
    play_and_finish(&mut r);
    assert_eq!(r.phase, Phase::Comments);

    assert_eq!(handle_continue_to_next_game(&mut r, 1).unwrap(), false);
    assert_eq!(handle_continue_to_next_game(&mut r, 2).unwrap(), true);
    assert_eq!(r.phase, Phase::Lobby);
    assert!(r.players.iter().all(|p| !p.ready));

    // With four or more players the room waits for a dealer election
    // instead.
    let mut r4 = room_with_players(4, 10);
    for p in &mut r4.players {
        p.ready = true;
    }
    start_hand(&mut r4, 1).unwrap();
    play_and_finish(&mut r4);
    for i in 1..=4u128 {
        handle_continue_to_next_game(&mut r4, i).unwrap();
    }
    assert_eq!(r4.phase, Phase::WaitingForDealer);
}

fn play_and_finish(r: &mut Room) {
    let n = r.players.len();
    for _ in 0..n {
        let actor = r.players[r.to_act_seat].id;
        player_stand(r, actor).unwrap();
    }
    for _ in 0..n {
        let actor = r.players[r.to_act_seat].id;
        match player_check(r, actor).unwrap() {
            HandFlow::HandDone(_) => return,
            HandFlow::Continued => {},
            _ => panic!("checking through must end at showdown"),
        }
    }
    panic!("hand did not finish");
}

#[test]
fn join_overflows_to_spectators_and_leave_compacts_seats() {
    let mut r = Room::new("busy".to_string());
    for i in 0..MAX_PLAYERS {
        assert_eq!(
            join_room(&mut r, (i + 1) as u128, format!("p{}", i + 1)),
            JoinOutcome::Seated(i)
        );
    }
    assert_eq!(join_room(&mut r, 100, "late".to_string()), JoinOutcome::Spectating);
    assert_eq!(r.players.len(), MAX_PLAYERS);
    assert_eq!(r.spectators.len(), 1);
    assert_eq!(r.spectators[0].id, 100);

    assert!(matches!(remove_player(&mut r, 99), Err(ActionError::NotSeated)));
    remove_player(&mut r, 3).unwrap();
    assert_eq!(r.players.len(), MAX_PLAYERS - 1);
    assert!(r.players.iter().all(|p| p.id != 3));
}

#[test]
fn scheduling_and_check_in() {
    let mut r = room_with_players(2, 10);
    assert!(matches!(check_in(&mut r, 1), Err(ActionError::NothingScheduled)));
    schedule_game(&mut r, 1, "2031-01-01T20:00:00Z".to_string()).unwrap();
    assert_eq!(r.scheduled_start.as_deref(), Some("2031-01-01T20:00:00Z"));
    check_in(&mut r, 1).unwrap();
    assert!(matches!(check_in(&mut r, 1), Err(ActionError::AlreadyCheckedIn)));
    check_in(&mut r, 2).unwrap();
    assert_eq!(r.checked_in_players, vec![1, 2]);
}

#[test]
fn table_configuration_is_validated() {
    assert_eq!(
        new_with_config("".to_string(), GameVariant::Omaha, 10, 10, 20, 3).unwrap_err(),
        ActionError::TableNameEmpty
    );
    assert_eq!(
        new_with_config("t".to_string(), GameVariant::Omaha, 0, 10, 20, 3).unwrap_err(),
        ActionError::TableConfigZero
    );
    assert_eq!(
        new_with_config("t".to_string(), GameVariant::Omaha, 10, 20, 20, 3).unwrap_err(),
        ActionError::TableLimitOrder
    );
    assert_eq!(
        new_with_config("t".to_string(), GameVariant::Omaha, 10, 10, u64::MAX, 3).unwrap_err(),
        ActionError::TableStakesTooLarge
    );
    let room = new_with_config("t".to_string(), GameVariant::Omaha, 25, 15, 30, 4).unwrap();
    assert_eq!(room.ante, 25);
    assert_eq!(room.limit_small, 15);
    assert_eq!(room.limit_big, 30);
    assert_eq!(room.max_raises, 4);
    assert_eq!(room.game_variant, GameVariant::Omaha);
}

#[test]
fn shuffled_deck_deals_each_card_exactly_once() {
    let mut deck = Deck::standard_shuffled();
    assert_eq!(deck.cards.len(), 52);
    let mut seen = std::collections::HashSet::new();
    for _ in 0..52 {
        let c = deck.draw(false).unwrap();
        assert!(!c.face_up);
        seen.insert((c.rank, c.suit));
    }
    assert_eq!(seen.len(), 52);
    assert!(deck.draw(true).is_none());
}

#[test]
fn errors_carry_distinct_reasons() {
    let all = [
        ActionError::NotSeated,
        ActionError::WrongPhase,
        ActionError::InBetting,
        ActionError::NotInBetting,
        ActionError::NotYourTurn,
        ActionError::AlreadyFolded,
        ActionError::AlreadyStanding,
        ActionError::MaxCardsReached,
        ActionError::DeckMissing,
        ActionError::CannotCheckFacingBet,
        ActionError::BetAlreadyMade,
        ActionError::NoBetToRaise,
        ActionError::RaiseCapReached,
        ActionError::NoBetToCall,
        ActionError::NeedTwoPlayers,
        ActionError::NotAllReady,
        ActionError::NeedFourPlayers,
        ActionError::NotDealer,
        ActionError::DealerNotSeated,
        ActionError::TableNameEmpty,
        ActionError::TableConfigZero,
        ActionError::TableLimitOrder,
        ActionError::TableStakesTooLarge,
        ActionError::NothingScheduled,
        ActionError::AlreadyCheckedIn,
        ActionError::TableFull,
        ActionError::HandInPlay,
    ];
    let mut reasons = std::collections::HashSet::new();
    for e in all {
        assert!(reasons.insert(e.reason()));
    }
}

#[test]
fn three_player_scenario_with_forced_bust() {
    // Three players ante 50 each into a 150-chip pot.
    let mut r = room_with_players(3, 50);
    for p in &mut r.players {
        p.ready = true;
    }
    start_hand(&mut r, 1).unwrap();
    assert_eq!(r.pot, 150);
    assert_eq!(r.to_act_seat, 1);

    // Stack the table: two quiet hands and one that must bust on its draw.
    r.players[0].up_cards = vec![Card { rank: Rank::Ace, suit: Suit::Spades, face_up: true }];
    r.players[0].down_cards = vec![Card { rank: Rank::Two, suit: Suit::Hearts, face_up: false }];
    r.players[1].up_cards = vec![Card { rank: Rank::Three, suit: Suit::Clubs, face_up: true }];
    r.players[1].down_cards = vec![Card { rank: Rank::Four, suit: Suit::Diamonds, face_up: false }];
    r.players[2].up_cards = vec![Card { rank: Rank::Ten, suit: Suit::Spades, face_up: true }];
    r.players[2].down_cards = vec![Card { rank: Rank::Ten, suit: Suit::Hearts, face_up: false }];
    r.deck.as_mut().unwrap().cards = vec![Card {
        rank: Rank::Ten,
        suit: Suit::Clubs,
        face_up: false,
    }];

    // Draw phase: one player stands, the next draws 10+10+10 and is
    // force-folded, the last stands.
    assert!(matches!(player_stand(&mut r, 2).unwrap(), HandFlow::Continued));
    let out = player_take_card(&mut r, 3).unwrap();
    assert!(out.busted);
    assert!(r.players[2].folded);
    let flow = player_stand(&mut r, 1).unwrap();
    assert!(matches!(flow, HandFlow::NewBettingRound));

    // Fixed-limit betting: the first round's unit is the small limit.
    assert_eq!(r.to_act_seat, 1);
    player_bet_or_raise(&mut r, 2, false).unwrap();
    assert_eq!(r.current_bet, 10);
    let rep = match player_call(&mut r, 1).unwrap() {
        HandFlow::HandDone(rep) => rep,
        _ => panic!("the call closes the only betting round"),
    };

    // Showdown splits the 170-chip pot: the low half to the hand that hit 7
    // exactly, the rest to the closest high hand; here the split is even and
    // the payouts sum to the pot exactly.
    assert_eq!(rep.winners7, vec![2]);
    assert_eq!(rep.winners27, vec![1]);
    let paid: u64 = rep.payouts.iter().map(|(_, amt)| amt).sum();
    assert_eq!(paid, 170);
    assert_eq!(rep.payouts, vec![(2, 85), (1, 85)]);
    assert_eq!(r.players[0].chips, 1000 - 50 - 10 + 85);
    assert_eq!(r.players[1].chips, 1000 - 50 - 10 + 85);
    assert_eq!(r.players[2].chips, 950);
    assert_eq!(r.phase, Phase::Comments);

    // Chip conservation, exactly: nothing vanished or was created.
    let total: u64 = r.players.iter().map(|p| p.chips).sum::<u64>() + r.pot;
    assert_eq!(total, 3000);
}

#[test]
fn turn_cursor_always_points_at_a_seat_that_may_act() {
    let mut r = room_with_players(4, 10);
    for p in &mut r.players {
        p.ready = true;
    }
    start_hand(&mut r, 1).unwrap();

    // Throughout the hand, whenever the room is acting, the seat to act has
    // never folded, and in the draw sub-phase is neither standing nor done.
    let mut guard = 0;
    while r.phase == Phase::Acting && guard < 100 {
        guard += 1;
        let seat = r.to_act_seat;
        assert!(seat < r.players.len());
        assert!(!r.players[seat].folded);
        if !r.in_betting {
            assert!(!r.players[seat].standing);
            assert!(!r.draw_acted[seat]);
        } else {
            assert!(!r.betting_acted[seat]);
        }
        let actor = r.players[seat].id;
        if r.in_betting {
            player_check(&mut r, actor).unwrap();
        } else {
            player_stand(&mut r, actor).unwrap();
        }
    }
    assert_eq!(r.phase, Phase::Comments);
}

#[test]
fn omaha_hand_runs_bet_draw_bet_to_showdown() {
    let mut r = room_with_players(3, 10);
    select_game_variant(&mut r, 1, GameVariant::Omaha).unwrap();
    for p in &mut r.players {
        p.ready = true;
    }
    start_hand(&mut r, 1).unwrap();
    assert!(r.in_betting);

    // First betting round: everyone checks; with nobody standing yet the
    // round closes into a stand-or-fold round.
    let mut flow = HandFlow::Continued;
    for _ in 0..3 {
        let actor = r.players[r.to_act_seat].id;
        flow = player_check(&mut r, actor).unwrap();
    }
    assert!(matches!(flow, HandFlow::NewDrawRound));
    assert!(!r.in_betting);
    assert_eq!(r.round, 2);

    // Nobody may draw past the variant's hole cards.
    let actor = r.players[r.to_act_seat].id;
    assert!(matches!(
        player_take_card(&mut r, actor),
        Err(ActionError::MaxCardsReached)
    ));

    // All stand, bet once more, and the hand shows down.
    for _ in 0..3 {
        let actor = r.players[r.to_act_seat].id;
        flow = player_stand(&mut r, actor).unwrap();
    }
    assert!(matches!(flow, HandFlow::NewBettingRound));
    for _ in 0..3 {
        let actor = r.players[r.to_act_seat].id;
        flow = player_check(&mut r, actor).unwrap();
    }
    match flow {
        HandFlow::HandDone(rep) => {
            let paid: u64 = rep.payouts.iter().map(|(_, amt)| amt).sum();
            assert!(paid <= 30);
        },
        _ => panic!("the second checked-through betting round ends the hand"),
    }
    assert_eq!(r.phase, Phase::Comments);
}

#[test]
fn four_player_table_plays_a_second_hand_through_dealer_election() {
    let mut r = room_with_players(4, 10);
    for p in &mut r.players {
        p.ready = true;
    }
    start_hand(&mut r, 1).unwrap();
    play_and_finish(&mut r);
    for i in 1..=4u128 {
        handle_continue_to_next_game(&mut r, i).unwrap();
    }
    assert_eq!(r.phase, Phase::WaitingForDealer);

    // Elections are taken while the room waits for a dealer, so a second
    // hand can start.
    for i in 1..=3u128 {
        assert_eq!(handle_elect_to_start(&mut r, i).unwrap(), false);
        assert_eq!(r.phase, Phase::WaitingForDealer);
    }
    assert_eq!(handle_elect_to_start(&mut r, 4).unwrap(), true);
    assert_eq!(r.phase, Phase::DealerSelection);
    handle_delegate_dealer(&mut r, 1, 2).unwrap();
    handle_choose_game_variant(&mut r, 2, GameVariant::SevenTwentySeven).unwrap();
    assert_eq!(r.phase, Phase::Acting);
}

#[test]
fn exhausted_deck_aborts_the_hand_to_showdown() {
    let mut r = room_with_players(2, 10);
    for p in &mut r.players {
        p.ready = true;
    }
    start_hand(&mut r, 1).unwrap();
    let wealth = total_wealth(&r);
    // Empty the draw source mid-hand.
    r.deck.as_mut().unwrap().cards = Vec::new();

    let actor = r.players[r.to_act_seat].id;
    let out = player_take_card(&mut r, actor).unwrap();
    assert!(out.card.is_none());
    assert!(!out.busted);
    match out.flow {
        HandFlow::HandDone(rep) => {
            // The hand aborted safely: scored over the cards dealt so far.
            assert!(!rep.winners27.is_empty());
            let paid: u64 = rep.payouts.iter().map(|(_, amt)| amt).sum();
            assert!(paid <= 20);
            assert_eq!(total_wealth(&r) + (20 - paid), wealth);
        },
        _ => panic!("an exhausted deck must end the hand at once"),
    }
    assert_eq!(r.phase, Phase::Comments);
}

#[test]
fn reset_clears_the_board_and_reveals_only_survivors() {
    let mut r = room_with_players(3, 10);
    select_game_variant(&mut r, 1, GameVariant::TexasHoldem).unwrap();
    for p in &mut r.players {
        p.ready = true;
    }
    start_hand(&mut r, 1).unwrap();
    assert_eq!(r.community_cards.len(), 3);
    assert!(r.community_cards.iter().all(|c| c.face_up));
    assert!(r.players.iter().all(|p| p.down_cards.iter().all(|c| !c.face_up)));

    // One player folds; the other two check the hand down to a showdown.
    let folder = r.players[r.to_act_seat].id;
    player_fold(&mut r, folder).unwrap();
    let mut rep = None;
    for _ in 0..4 {
        let actor = r.players[r.to_act_seat].id;
        match player_check(&mut r, actor).unwrap() {
            HandFlow::Continued => {},
            HandFlow::NewDrawRound => {
                // Community variants cannot draw; both survivors stand.
                let a = r.players[r.to_act_seat].id;
                player_stand(&mut r, a).unwrap();
                let b = r.players[r.to_act_seat].id;
                player_stand(&mut r, b).unwrap();
            },
            HandFlow::HandDone(x) => {
                rep = Some(x);
                break;
            },
            HandFlow::NewBettingRound => {},
        }
    }
    let rep = rep.expect("the checked-down hand must reach showdown");

    // The reveal carries only the two surviving seats; the folded seat's
    // hidden cards stay hidden.
    assert_eq!(rep.reveal.len(), 2);
    assert!(rep.reveal.iter().all(|(id, _)| *id != folder));

    // The end-of-hand reset also clears the board.
    assert_eq!(r.phase, Phase::Comments);
    assert!(r.community_cards.is_empty());
}

#[test]
fn dealt_cards_are_distinct_and_come_off_the_deck() {
    let mut r = Room::new("table".to_string());
    for i in 0..MAX_PLAYERS {
        add_player(&mut r, (i + 1) as u128, format!("p{}", i + 1));
    }
    for p in &mut r.players {
        p.ready = true;
    }
    start_hand(&mut r, 1).unwrap();

    // Every dealt card and every card left in the deck is one distinct card
    // of the 52: nothing is duplicated or conjured.
    let mut seen = std::collections::HashSet::new();
    for p in &r.players {
        for c in p.up_cards.iter().chain(p.down_cards.iter()) {
            assert!(seen.insert((c.rank, c.suit)));
        }
    }
    for c in &r.deck.as_ref().unwrap().cards {
        assert!(seen.insert((c.rank, c.suit)));
    }
    assert_eq!(seen.len(), 52);
}

#[test]
fn spectators_are_removed_on_disconnect() {
    let mut r = Room::new("table".to_string());
    join_as_spectator(&mut r, 50, "watcher".to_string());
    join_as_spectator(&mut r, 51, "other".to_string());
    assert_eq!(r.spectators.len(), 2);

    remove_spectator(&mut r, 50);
    assert_eq!(r.spectators.len(), 1);
    assert_eq!(r.spectators[0].id, 51);
    assert_eq!(r.spectators[0].name, "other");

    // Removing an absent spectator changes nothing.
    remove_spectator(&mut r, 50);
    assert_eq!(r.spectators.len(), 1);
}
