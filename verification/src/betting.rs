//! The betting-phase turn engine: entering a betting round, the check / bet /
//! raise / call intents, and the advance rule that hands the turn on or ends
//! the round.

use vstd::prelude::*;
use crate::errors::ActionError;
use crate::room::{Room, PlayerSeat, Phase, lemma_sums_nonneg, seat_index, seat_of, commit, bet_size_for_round};
use crate::showdown::{ShowdownReport, showdown_outcome, do_showdown, lemma_committed_zero, lemma_chips_pointwise};
use crate::turn::{cyc, scan_first, alive_pred, bet_pred, can_draw_pred, lemma_scan_finds, next_alive_left_of, next_bet_turn, next_drawer_left_of};

verus! {

/// Where one accepted intent left the hand.
#[derive(Debug)]
pub enum HandFlow {
    /// The turn moved on within the same sub-phase.
    Continued,
    /// The draw round ended and a betting round began.
    NewBettingRound,
    /// The betting round ended and a new draw round began.
    NewDrawRound,
    /// The hand ended; the report carries what there is to broadcast.
    HandDone(ShowdownReport),
}

/// Every seat has either folded or completed the current betting round.
pub open spec fn all_bet_acted(players: Seq<PlayerSeat>, acted: Seq<bool>) -> bool {
    forall|i: int| 0 <= i < players.len() ==> players[i].folded || acted[i]
}

/// Every seat has either folded or stands; nobody draws any more.
pub open spec fn all_locked(players: Seq<PlayerSeat>) -> bool {
    forall|i: int|
        0 <= i < players.len() ==> players[i].folded || (#[trigger] players[i]).standing
}

/// What entering a betting round establishes, relative to the seats
/// `players1` and dealer it was entered with: counters cleared, every seat's
/// round commitment cleared, folded seats pre-marked acted, and the turn on
/// the first alive seat left of the dealer.
pub open spec fn betting_round_started(players1: Seq<PlayerSeat>, dealer: int, post: Room) -> bool {
    let n = players1.len() as int;
    &&& post.in_betting == true
    &&& post.current_bet == 0
    &&& post.raises_made == 0
    &&& post.last_aggressor_seat is None
    &&& post.players@.len() == n
    &&& forall|i: int|
        0 <= i < n ==> #[trigger] post.players@[i] == (PlayerSeat {
            committed_round: 0,
            ..players1[i]
        })
    &&& post.betting_acted@.len() == n
    &&& forall|i: int| 0 <= i < n ==> post.betting_acted@[i] == players1[i].folded
    &&& post.betting_started_seat == post.to_act_seat
    &&& Some(post.to_act_seat as int) == scan_first(
        n,
        cyc(n, dealer, 1),
        n as nat,
        alive_pred(players1),
    )
}

/// What ending a betting round establishes when play goes on: a new draw
/// round, its acted flags pre-set for folded and standing seats, and the
/// turn on the first seat left of the dealer that may still draw.
pub open spec fn draw_round_started(
    players1: Seq<PlayerSeat>,
    dealer: int,
    round0: int,
    post: Room,
) -> bool {
    let n = players1.len() as int;
    &&& post.in_betting == false
    &&& post.round as int == (if round0 < u32::MAX {
        round0 + 1
    } else {
        round0
    })
    &&& post.players@ == players1
    &&& post.draw_acted@.len() == n
    &&& forall|i: int|
        0 <= i < n ==> post.draw_acted@[i] == (players1[i].folded || (
        #[trigger] players1[i]).standing)
    &&& post.draw_started_seat == post.to_act_seat
    &&& Some(post.to_act_seat as int) == scan_first(
        n,
        cyc(n, dealer, 1),
        n as nat,
        can_draw_pred(players1),
    )
}

/// Where the betting engine's advance rule leaves the room, relative to the
/// seats `players1`, acted flags `acted1`, pot `pot1`, dealer, round and
/// turn cursor the action left behind: either the turn moves to the next
/// eligible seat, or the round ends — into a showdown when every surviving
/// seat stands, into a new draw round otherwise.
pub open spec fn bet_turn_outcome(
    players1: Seq<PlayerSeat>,
    acted1: Seq<bool>,
    pot1: int,
    dealer: int,
    round0: int,
    to_act0: int,
    post: Room,
    flow: HandFlow,
) -> bool {
    let n = players1.len() as int;
    if all_bet_acted(players1, acted1) {
        if all_locked(players1) {
            &&& flow is HandDone
            &&& showdown_outcome(players1, pot1, dealer, post, flow->HandDone_0)
            &&& post.betting_acted@ == acted1
        } else {
            &&& flow is NewDrawRound
            &&& draw_round_started(players1, dealer, round0, post)
            &&& post.betting_acted@ == acted1
            &&& post.pot == pot1
        }
    } else {
        &&& flow is Continued
        &&& Some(post.to_act_seat as int) == scan_first(
            n,
            cyc(n, to_act0, 1),
            n as nat,
            bet_pred(players1, acted1),
        )
        &&& post.players@ == players1
        &&& post.betting_acted@ == acted1
        &&& post.pot == pot1
        &&& post.in_betting == true
        &&& post.round as int == round0
    }
}

/// The room fields an advance (and anything it triggers) may touch; all
/// table configuration is left alone.
pub open spec fn advance_frame(pre: Room, post: Room) -> bool {
    post == (Room {
        players: post.players,
        pot: post.pot,
        phase: post.phase,
        deck: post.deck,
        in_betting: post.in_betting,
        current_bet: post.current_bet,
        round: post.round,
        raises_made: post.raises_made,
        dealer_seat: post.dealer_seat,
        current_dealer_id: post.current_dealer_id,
        elected_players: post.elected_players,
        to_act_seat: post.to_act_seat,
        draw_acted: post.draw_acted,
        draw_started_seat: post.draw_started_seat,
        betting_acted: post.betting_acted,
        betting_started_seat: post.betting_started_seat,
        last_aggressor_seat: post.last_aggressor_seat,
        community_cards: post.community_cards,
        ..pre
    })
}

/// Enters a betting round: resets the bet counters, clears every seat's
/// round commitment, pre-marks folded seats as acted, and hands the turn to
/// the first alive seat left of the dealer.
pub(crate) fn start_betting_round(r: &mut Room)
    requires
        old(r).players@.len() > 0,
        old(r).seats_ok(),
        old(r).dealer_seat < old(r).players@.len(),
        exists|j: int| #[trigger] old(r).seat_alive(j),
        old(r).money_ok(),
        old(r).limits_ok(),
        old(r).cards_ok(),
        old(r).phase is Acting,
        old(r).draw_acted@.len() == old(r).players@.len(),
    ensures
        betting_round_started(old(r).players@, old(r).dealer_seat as int, *final(r)),
        *final(r) == (Room {
            in_betting: final(r).in_betting,
            current_bet: final(r).current_bet,
            raises_made: final(r).raises_made,
            last_aggressor_seat: final(r).last_aggressor_seat,
            players: final(r).players,
            betting_acted: final(r).betting_acted,
            betting_started_seat: final(r).betting_started_seat,
            to_act_seat: final(r).to_act_seat,
            ..*old(r)
        }),
        final(r).wealth() == old(r).wealth(),
        final(r).wf(),
{
    let ghost pre = *r;
    let start = next_alive_left_of(r, r.dealer_seat);
    r.in_betting = true;
    r.current_bet = 0;
    r.raises_made = 0;
    r.betting_started_seat = start;
    r.last_aggressor_seat = None;

    let n = r.players.len();
    let ghost mid = *r;
    let mut i: usize = 0;
    while i < n
        invariant
            n == r.players@.len(),
            i <= n,
            forall|j: int|
                0 <= j < i ==> #[trigger] r.players@[j] == (PlayerSeat {
                    committed_round: 0,
                    ..pre.players@[j]
                }),
            forall|j: int| i <= j < n ==> r.players@[j] == pre.players@[j],
            pre.players@.len() == n,
            *r == (Room { players: r.players, ..mid }),
        decreases n - i,
    {
        let p = &mut r.players[i];
        p.committed_round = 0;
        i = i + 1;
    }

    let mut acted: Vec<bool> = Vec::new();
    let mut k: usize = 0;
    while k < n
        invariant
            n == r.players@.len(),
            pre.players@.len() == n,
            k <= n,
            acted@.len() == k,
            forall|j: int| 0 <= j < k ==> acted@[j] == pre.players@[j].folded,
            forall|j: int|
                0 <= j < n ==> #[trigger] r.players@[j] == (PlayerSeat {
                    committed_round: 0,
                    ..pre.players@[j]
                }),
            *r == (Room { players: r.players, ..mid }),
        decreases n - k,
    {
        acted.push(r.players[k].folded);
        k = k + 1;
    }
    r.betting_acted = acted;
    r.to_act_seat = start;
    proof {
        lemma_chips_pointwise(pre.players@, r.players@);
        lemma_committed_zero(r.players@);
        lemma_sums_nonneg(pre.players@);
    }
}

/// Ends the betting round: a showdown when every surviving seat stands, a
/// new draw round otherwise.
pub(crate) fn end_betting_round(r: &mut Room) -> (flow: HandFlow)
    requires
        old(r).mid_action_ok(),
    ensures
        (if all_locked(old(r).players@) {
            flow is HandDone && showdown_outcome(
                old(r).players@,
                old(r).pot as int,
                old(r).dealer_seat as int,
                *final(r),
                flow->HandDone_0,
            ) && final(r).betting_acted@ == old(r).betting_acted@
        } else {
            flow is NewDrawRound && draw_round_started(
                old(r).players@,
                old(r).dealer_seat as int,
                old(r).round as int,
                *final(r),
            ) && final(r).betting_acted@ == old(r).betting_acted@ && final(r).pot == old(r).pot
        }),
        advance_frame(*old(r), *final(r)),
        !(flow is HandDone) ==> *final(r) == (Room {
            to_act_seat: final(r).to_act_seat,
            in_betting: final(r).in_betting,
            round: final(r).round,
            draw_acted: final(r).draw_acted,
            draw_started_seat: final(r).draw_started_seat,
            ..*old(r)
        }),
        flow is HandDone ==> final(r).draw_acted == old(r).draw_acted,
        final(r).wf(),
        final(r).wealth() <= old(r).wealth(),
        !all_locked(old(r).players@) ==> final(r).wealth() == old(r).wealth(),
{
    let ghost pre = *r;
    r.in_betting = false;

    let n = r.players.len();
    let mut locked = true;
    let mut i: usize = 0;
    while i < n
        invariant
            n == r.players@.len(),
            *r == (Room { in_betting: false, ..pre }),
            i <= n,
            locked == (forall|j: int|
                0 <= j < i ==> pre.players@[j].folded || (#[trigger] pre.players@[j]).standing),
        decreases n - i,
    {
        if !r.players[i].folded && !r.players[i].standing {
            locked = false;
        }
        i = i + 1;
    }

    if locked {
        assert(all_locked(pre.players@));
        let rep = do_showdown(r);
        HandFlow::HandDone(rep)
    } else {
        assert(!all_locked(pre.players@));
        if r.round < u32::MAX {
            r.round = r.round + 1;
        }
        proof {
            let j0 = choose|j: int|
                0 <= j < pre.players@.len() && !pre.players@[j].folded && !(
                #[trigger] pre.players@[j]).standing;
            assert(r.seat_alive(j0) && !r.players@[j0].standing);
        }
        let start = next_drawer_left_of(r, r.dealer_seat);
        r.draw_started_seat = start;
        r.to_act_seat = start;

        let mut acted: Vec<bool> = Vec::new();
        let ghost mid = *r;
        let mut k: usize = 0;
        while k < n
            invariant
                n == r.players@.len(),
                k <= n,
                acted@.len() == k,
                forall|j: int|
                    0 <= j < k ==> acted@[j] == (r.players@[j].folded || (
                    #[trigger] r.players@[j]).standing),
                *r == mid,
            decreases n - k,
        {
            acted.push(r.players[k].folded || r.players[k].standing);
            k = k + 1;
        }
        r.draw_acted = acted;
        HandFlow::NewDrawRound
    }
}

/// Advances the betting turn after one seat's action: ends the round when
/// every surviving seat has acted, otherwise hands the turn to the next
/// alive, not-yet-acted seat.
pub(crate) fn advance_betting_turn(r: &mut Room) -> (flow: HandFlow)
    requires
        old(r).mid_bet_ok(),
    ensures
        bet_turn_outcome(
            old(r).players@,
            old(r).betting_acted@,
            old(r).pot as int,
            old(r).dealer_seat as int,
            old(r).round as int,
            old(r).to_act_seat as int,
            *final(r),
            flow,
        ),
        advance_frame(*old(r), *final(r)),
        !(flow is HandDone) ==> *final(r) == (Room {
            to_act_seat: final(r).to_act_seat,
            in_betting: final(r).in_betting,
            round: final(r).round,
            draw_acted: final(r).draw_acted,
            draw_started_seat: final(r).draw_started_seat,
            ..*old(r)
        }),
        flow is HandDone ==> final(r).draw_acted == old(r).draw_acted,
        flow is Continued ==> final(r).draw_acted == old(r).draw_acted,
        final(r).wf(),
        final(r).wealth() <= old(r).wealth(),
        !(all_bet_acted(old(r).players@, old(r).betting_acted@) && all_locked(old(r).players@))
            ==> final(r).wealth() == old(r).wealth(),
{
    let ghost pre = *r;
    let n = r.players.len();
    let mut all_acted = true;
    let mut i: usize = 0;
    while i < n
        invariant
            n == r.players@.len(),
            *r == pre,
            pre.betting_acted@.len() == n,
            i <= n,
            all_acted == (forall|j: int|
                0 <= j < i ==> pre.players@[j].folded || pre.betting_acted@[j]),
        decreases n - i,
    {
        if !r.players[i].folded && !r.betting_acted[i] {
            all_acted = false;
        }
        i = i + 1;
    }

    if all_acted {
        assert(all_bet_acted(pre.players@, pre.betting_acted@));
        end_betting_round(r)
    } else {
        assert(!all_bet_acted(pre.players@, pre.betting_acted@));
        match next_bet_turn(r, r.to_act_seat) {
            Some(s) => {
                r.to_act_seat = s;
                HandFlow::Continued
            },
            None => {
                proof {
                    let j0 = choose|j: int|
                        0 <= j < pre.players@.len() && !(pre.players@[j].folded
                            || pre.betting_acted@[j]);
                    let p = bet_pred(pre.players@, pre.betting_acted@);
                    assert(p(j0));
                    lemma_scan_finds(
                        n as int,
                        cyc(n as int, pre.to_act_seat as int, 1),
                        p,
                    );
                }
                assert(false);
                HandFlow::Continued
            },
        }
    }
}

/// Why a check would be rejected, or nothing when it is legal: the first
/// failing test, in the order the engine checks them.
pub open spec fn check_rejection(r: Room, id: u128) -> Option<ActionError> {
    if !(r.phase is Acting) {
        Some(ActionError::WrongPhase)
    } else if !r.in_betting {
        Some(ActionError::NotInBetting)
    } else {
        match seat_index(r.players@, id) {
            None => Some(ActionError::NotSeated),
            Some(seat) => if r.to_act_seat as int != seat {
                Some(ActionError::NotYourTurn)
            } else if r.players@[seat].folded {
                Some(ActionError::AlreadyFolded)
            } else if r.current_bet != 0 {
                Some(ActionError::CannotCheckFacingBet)
            } else {
                None
            },
        }
    }
}

/// Check: legal only while no bet stands; marks the caller acted and
/// advances the turn. Rejections leave the room untouched.
pub fn player_check(r: &mut Room, id: u128) -> (res: Result<HandFlow, ActionError>)
    requires
        old(r).wf(),
    ensures
        final(r).wf(),
        (res is Err) == (check_rejection(*old(r), id) is Some),
        res is Err ==> res->Err_0 == check_rejection(*old(r), id)->Some_0 && *final(r) == *old(r),
        res is Ok ==> ({
            let seat = seat_index(old(r).players@, id)->Some_0;
            let acted1 = old(r).betting_acted@.update(seat, true);
            &&& bet_turn_outcome(
                old(r).players@,
                acted1,
                old(r).pot as int,
                old(r).dealer_seat as int,
                old(r).round as int,
                old(r).to_act_seat as int,
                *final(r),
                res->Ok_0,
            )
            &&& advance_frame(*old(r), *final(r))
            &&& (!(res->Ok_0 is HandDone) ==> final(r).current_bet == old(r).current_bet
                && final(r).raises_made == old(r).raises_made && final(r).last_aggressor_seat
                == old(r).last_aggressor_seat && final(r).community_cards == old(r).community_cards)
        }),
        final(r).wealth() <= old(r).wealth(),
{
    if !matches!(r.phase, Phase::Acting) {
        return Err(ActionError::WrongPhase);
    }
    if !r.in_betting {
        return Err(ActionError::NotInBetting);
    }
    let seat = match seat_of(r, id) {
        Some(s) => s,
        None => {
            return Err(ActionError::NotSeated);
        },
    };
    if r.to_act_seat != seat {
        return Err(ActionError::NotYourTurn);
    }
    if r.players[seat].folded {
        return Err(ActionError::AlreadyFolded);
    }
    if r.current_bet != 0 {
        return Err(ActionError::CannotCheckFacingBet);
    }
    let ghost pre = *r;
    let b = &mut r.betting_acted[seat];
    *b = true;
    assert(r.betting_acted@ == pre.betting_acted@.update(seat as int, true));
    assert(*r == (Room { betting_acted: r.betting_acted, ..pre }));
    assert(r.mid_bet_ok());
    let flow = advance_betting_turn(r);
    Ok(flow)
}

/// Why a call would be rejected, or nothing when it is legal.
pub open spec fn call_rejection(r: Room, id: u128) -> Option<ActionError> {
    if !(r.phase is Acting) {
        Some(ActionError::WrongPhase)
    } else if !r.in_betting {
        Some(ActionError::NotInBetting)
    } else {
        match seat_index(r.players@, id) {
            None => Some(ActionError::NotSeated),
            Some(seat) => if r.to_act_seat as int != seat {
                Some(ActionError::NotYourTurn)
            } else if r.players@[seat].folded {
                Some(ActionError::AlreadyFolded)
            } else if r.current_bet == 0 {
                Some(ActionError::NoBetToCall)
            } else {
                None
            },
        }
    }
}

/// Call: legal only while a bet stands; the caller commits the difference up
/// to the current bet (clamped to their stack), is marked acted, and the
/// turn advances.
pub fn player_call(r: &mut Room, id: u128) -> (res: Result<HandFlow, ActionError>)
    requires
        old(r).wf(),
    ensures
        final(r).wf(),
        (res is Err) == (call_rejection(*old(r), id) is Some),
        res is Err ==> res->Err_0 == call_rejection(*old(r), id)->Some_0 && *final(r) == *old(r),
        res is Ok ==> ({
            let seat = seat_index(old(r).players@, id)->Some_0;
            let s0 = old(r).players@[seat];
            let need = old(r).current_bet - s0.committed_round;
            let pay: int = if need <= s0.chips {
                need as int
            } else {
                s0.chips as int
            };
            let players1 = old(r).players@.update(
                seat,
                (PlayerSeat {
                    chips: (s0.chips - pay) as u64,
                    committed_round: (s0.committed_round + pay) as u64,
                    ..s0
                }),
            );
            let acted1 = old(r).betting_acted@.update(seat, true);
            &&& bet_turn_outcome(
                players1,
                acted1,
                old(r).pot + pay,
                old(r).dealer_seat as int,
                old(r).round as int,
                old(r).to_act_seat as int,
                *final(r),
                res->Ok_0,
            )
            &&& advance_frame(*old(r), *final(r))
            &&& (!(res->Ok_0 is HandDone) ==> final(r).current_bet == old(r).current_bet
                && final(r).raises_made == old(r).raises_made && final(r).last_aggressor_seat
                == old(r).last_aggressor_seat && final(r).community_cards == old(r).community_cards)
        }),
        final(r).wealth() <= old(r).wealth(),
{
    if !matches!(r.phase, Phase::Acting) {
        return Err(ActionError::WrongPhase);
    }
    if !r.in_betting {
        return Err(ActionError::NotInBetting);
    }
    let seat = match seat_of(r, id) {
        Some(s) => s,
        None => {
            return Err(ActionError::NotSeated);
        },
    };
    if r.to_act_seat != seat {
        return Err(ActionError::NotYourTurn);
    }
    if r.players[seat].folded {
        return Err(ActionError::AlreadyFolded);
    }
    if r.current_bet == 0 {
        return Err(ActionError::NoBetToCall);
    }
    let ghost pre = *r;
    let need = r.current_bet - r.players[seat].committed_round;
    commit(r, seat, need);
    let ghost mid1 = *r;
    let b = &mut r.betting_acted[seat];
    *b = true;
    assert(r.betting_acted@ == pre.betting_acted@.update(seat as int, true));
    assert(*r == (Room { betting_acted: r.betting_acted, ..mid1 }));
    assert(r.mid_bet_ok());
    let flow = advance_betting_turn(r);
    Ok(flow)
}

/// Why a bet or raise would be rejected, or nothing when it is legal.
pub open spec fn bet_raise_rejection(r: Room, id: u128, is_raise: bool) -> Option<ActionError> {
    if !(r.phase is Acting) {
        Some(ActionError::WrongPhase)
    } else if !r.in_betting {
        Some(ActionError::NotInBetting)
    } else {
        match seat_index(r.players@, id) {
            None => Some(ActionError::NotSeated),
            Some(seat) => if r.to_act_seat as int != seat {
                Some(ActionError::NotYourTurn)
            } else if r.players@[seat].folded {
                Some(ActionError::AlreadyFolded)
            } else if r.current_bet == 0 && is_raise {
                Some(ActionError::NoBetToRaise)
            } else if r.current_bet != 0 && !is_raise {
                Some(ActionError::BetAlreadyMade)
            } else if r.current_bet != 0 && r.raises_made >= r.max_raises {
                Some(ActionError::RaiseCapReached)
            } else {
                None
            },
        }
    }
}

/// Bet (opening) or raise: the caller commits up to the round's fixed unit
/// above the standing bet (clamped to their stack), the bet and raise count
/// move up, action reopens for every other surviving seat, and the turn
/// advances. A raise is refused at the raise cap, so `raises_made` never
/// exceeds `max_raises`.
pub fn player_bet_or_raise(r: &mut Room, id: u128, is_raise: bool) -> (res: Result<
    HandFlow,
    ActionError,
>)
    requires
        old(r).wf(),
    ensures
        final(r).wf(),
        (res is Err) == (bet_raise_rejection(*old(r), id, is_raise) is Some),
        res is Err ==> res->Err_0 == bet_raise_rejection(*old(r), id, is_raise)->Some_0 && *final(r)
            == *old(r),
        res is Ok ==> ({
            let seat = seat_index(old(r).players@, id)->Some_0;
            let s0 = old(r).players@[seat];
            let unit = old(r).spec_bet_unit();
            let target: int = old(r).current_bet + unit;
            let owed: int = target - s0.committed_round;
            let pay: int = if owed <= s0.chips {
                owed
            } else {
                s0.chips as int
            };
            let players1 = old(r).players@.update(
                seat,
                (PlayerSeat {
                    chips: (s0.chips - pay) as u64,
                    committed_round: (s0.committed_round + pay) as u64,
                    ..s0
                }),
            );
            let acted1 = Seq::new(
                old(r).players@.len(),
                |i: int| old(r).players@[i].folded || i == seat,
            );
            &&& bet_turn_outcome(
                players1,
                acted1,
                old(r).pot + pay,
                old(r).dealer_seat as int,
                old(r).round as int,
                old(r).to_act_seat as int,
                *final(r),
                res->Ok_0,
            )
            &&& advance_frame(*old(r), *final(r))
            &&& (!(res->Ok_0 is HandDone) ==> {
                &&& final(r).current_bet as int == old(r).current_bet + unit
                &&& final(r).raises_made as int == old(r).raises_made + 1
                &&& final(r).last_aggressor_seat == Some((seat as usize))
                &&& final(r).community_cards == old(r).community_cards
            })
        }),
        final(r).wealth() <= old(r).wealth(),
{
    if !matches!(r.phase, Phase::Acting) {
        return Err(ActionError::WrongPhase);
    }
    if !r.in_betting {
        return Err(ActionError::NotInBetting);
    }
    let seat = match seat_of(r, id) {
        Some(s) => s,
        None => {
            return Err(ActionError::NotSeated);
        },
    };
    if r.to_act_seat != seat {
        return Err(ActionError::NotYourTurn);
    }
    if r.players[seat].folded {
        return Err(ActionError::AlreadyFolded);
    }
    if r.current_bet == 0 && is_raise {
        return Err(ActionError::NoBetToRaise);
    }
    if r.current_bet != 0 && !is_raise {
        return Err(ActionError::BetAlreadyMade);
    }
    if r.current_bet != 0 && r.raises_made >= r.max_raises {
        return Err(ActionError::RaiseCapReached);
    }
    let ghost pre = *r;
    let sz = bet_size_for_round(r);
    proof {
        if pre.current_bet == 0 {
            assert(pre.raises_made as int * pre.spec_bet_unit() == pre.current_bet);
            assert(pre.raises_made == 0) by {
                if pre.raises_made > 0 {
                    vstd::arithmetic::mul::lemma_mul_inequality(
                        1,
                        pre.raises_made as int,
                        pre.spec_bet_unit(),
                    );
                    assert(pre.raises_made as int * pre.spec_bet_unit() >= 1 * pre.spec_bet_unit());
                }
            }
        }
        assert((pre.raises_made + 1) as int * pre.spec_bet_unit() == pre.raises_made as int
            * pre.spec_bet_unit() + pre.spec_bet_unit()) by (nonlinear_arith);
        vstd::arithmetic::mul::lemma_mul_inequality(
            pre.raises_made as int + 1,
            pre.max_raises as int,
            pre.spec_bet_unit(),
        );
    }
    let new_bet = r.current_bet + sz;
    let to_put = new_bet - r.players[seat].committed_round;
    commit(r, seat, to_put);
    r.current_bet = new_bet;
    r.last_aggressor_seat = Some(seat);
    r.raises_made = r.raises_made + 1;

    let n = r.players.len();
    let ghost mid1 = *r;
    let mut acted: Vec<bool> = Vec::new();
    let mut k: usize = 0;
    while k < n
        invariant
            n == r.players@.len(),
            k <= n,
            seat < n,
            acted@.len() == k,
            forall|j: int| 0 <= j < k ==> acted@[j] == (r.players@[j].folded || j == seat as int),
            *r == mid1,
        decreases n - k,
    {
        let f = r.players[k].folded;
        acted.push(f || k == seat);
        k = k + 1;
    }
    r.betting_acted = acted;
    proof {
        let acted1 = Seq::new(pre.players@.len(), |i: int| pre.players@[i].folded || i == seat as int);
        assert(forall|j: int|
            0 <= j < pre.players@.len() ==> r.players@[j].folded == pre.players@[j].folded);
        assert(r.betting_acted@ =~= acted1);
    }
    let flow = advance_betting_turn(r);
    Ok(flow)
}

} // verus!
