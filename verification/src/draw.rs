//! The draw-phase turn engine: the take-card, stand and fold intents, and
//! the advance rule that hands the turn on or moves the round into betting.

use vstd::prelude::*;
use crate::cards::Card;
use crate::errors::ActionError;
use crate::room::{Room, PlayerSeat, Phase, alive_count, lemma_alive_exists, seat_index, seat_of, alive_seats};
use crate::scoring::{score_hand, best_under, TARGET_HIGH};
use crate::showdown::{survivor_outcome, showdown_outcome, do_showdown, award_last_player_and_reset, seat_cards};
use crate::betting::{HandFlow, all_locked, betting_round_started, bet_turn_outcome, advance_frame, start_betting_round, advance_betting_turn};
use crate::turn::{cyc, scan_first, draw_pred, next_draw_turn};

verus! {

/// Where the draw engine's advance rule leaves the room, relative to the
/// seats `players1`, acted flags `acted1`, dealer and turn cursor the action
/// left behind: either the turn moves to the next seat that may draw, or the
/// draw round is over and a betting round begins.
pub open spec fn draw_turn_outcome(
    players1: Seq<PlayerSeat>,
    acted1: Seq<bool>,
    dealer: int,
    to_act0: int,
    post: Room,
    flow: HandFlow,
) -> bool {
    let n = players1.len() as int;
    if all_locked(players1) {
        &&& flow is NewBettingRound
        &&& betting_round_started(players1, dealer, post)
    } else {
        match scan_first(n, cyc(n, to_act0, 1), n as nat, draw_pred(players1, acted1)) {
            Some(s) => {
                &&& flow is Continued
                &&& post.to_act_seat as int == s
                &&& post.players@ == players1
                &&& post.draw_acted@ == acted1
                &&& post.in_betting == false
            },
            None => {
                &&& flow is NewBettingRound
                &&& betting_round_started(players1, dealer, post)
            },
        }
    }
}

/// Advances the draw turn after one seat's action: moves straight to betting
/// when every seat has folded or stands, otherwise hands the turn to the
/// next seat that may still draw, and enters betting when the scan finds
/// none.
pub(crate) fn advance_after_draw_action(r: &mut Room) -> (flow: HandFlow)
    requires
        old(r).mid_draw_ok(),
        exists|j: int| #[trigger] old(r).seat_alive(j),
    ensures
        draw_turn_outcome(
            old(r).players@,
            old(r).draw_acted@,
            old(r).dealer_seat as int,
            old(r).to_act_seat as int,
            *final(r),
            flow,
        ),
        advance_frame(*old(r), *final(r)),
        flow is Continued ==> *final(r) == (Room {
            to_act_seat: final(r).to_act_seat,
            ..*old(r)
        }),
        flow is NewBettingRound ==> *final(r) == (Room {
            in_betting: final(r).in_betting,
            current_bet: final(r).current_bet,
            raises_made: final(r).raises_made,
            last_aggressor_seat: final(r).last_aggressor_seat,
            players: final(r).players,
            betting_acted: final(r).betting_acted,
            betting_started_seat: final(r).betting_started_seat,
            to_act_seat: final(r).to_act_seat,
            ..*old(r)
        }),
        final(r).wf(),
        final(r).wealth() == old(r).wealth(),
{
    let ghost pre = *r;
    let n = r.players.len();
    let mut locked = true;
    let mut i: usize = 0;
    while i < n
        invariant
            n == r.players@.len(),
            *r == pre,
            i <= n,
            locked == (forall|j: int|
                0 <= j < i ==> pre.players@[j].folded || (#[trigger] pre.players@[j]).standing),
        decreases n - i,
    {
        if !r.players[i].folded && !r.players[i].standing {
            locked = false;
        }
        i = i + 1;
    }

    if locked {
        assert(all_locked(pre.players@));
        start_betting_round(r);
        HandFlow::NewBettingRound
    } else {
        assert(!all_locked(pre.players@));
        match next_draw_turn(r, r.to_act_seat) {
            Some(s) => {
                r.to_act_seat = s;
                HandFlow::Continued
            },
            None => {
                start_betting_round(r);
                HandFlow::NewBettingRound
            },
        }
    }
}

/// Why a stand would be rejected, or nothing when it is legal.
pub open spec fn stand_rejection(r: Room, id: u128) -> Option<ActionError> {
    if !(r.phase is Acting) {
        Some(ActionError::WrongPhase)
    } else if r.in_betting {
        Some(ActionError::InBetting)
    } else {
        match seat_index(r.players@, id) {
            None => Some(ActionError::NotSeated),
            Some(seat) => if r.to_act_seat as int != seat {
                Some(ActionError::NotYourTurn)
            } else if r.players@[seat].folded {
                Some(ActionError::AlreadyFolded)
            } else if r.players@[seat].standing {
                Some(ActionError::AlreadyStanding)
            } else {
                None
            },
        }
    }
}

/// Stand: the caller stops drawing for the rest of the hand, is marked
/// acted, and the turn advances. A standing seat still acts in betting.
pub fn player_stand(r: &mut Room, id: u128) -> (res: Result<HandFlow, ActionError>)
    requires
        old(r).wf(),
    ensures
        final(r).wf(),
        (res is Err) == (stand_rejection(*old(r), id) is Some),
        res is Err ==> res->Err_0 == stand_rejection(*old(r), id)->Some_0 && *final(r) == *old(r),
        res is Ok ==> ({
            let seat = seat_index(old(r).players@, id)->Some_0;
            let s0 = old(r).players@[seat];
            let players1 = old(r).players@.update(seat, (PlayerSeat { standing: true, ..s0 }));
            let acted1 = old(r).draw_acted@.update(seat, true);
            &&& draw_turn_outcome(
                players1,
                acted1,
                old(r).dealer_seat as int,
                old(r).to_act_seat as int,
                *final(r),
                res->Ok_0,
            )
            &&& advance_frame(*old(r), *final(r))
            &&& final(r).pot == old(r).pot
            &&& final(r).community_cards == old(r).community_cards
            &&& final(r).phase is Acting
        }),
        final(r).wealth() == old(r).wealth(),
{
    if !matches!(r.phase, Phase::Acting) {
        return Err(ActionError::WrongPhase);
    }
    if r.in_betting {
        return Err(ActionError::InBetting);
    }
    let seat = match seat_of(r, id) {
        Some(s) => s,
        None => {
            return Err(ActionError::NotSeated);
        },
    };
    if r.to_act_seat != seat {
        return Err(ActionError::NotYourTurn);
    }
    if r.players[seat].folded {
        return Err(ActionError::AlreadyFolded);
    }
    if r.players[seat].standing {
        return Err(ActionError::AlreadyStanding);
    }
    let ghost pre = *r;
    let p = &mut r.players[seat];
    p.standing = true;
    assert(r.players@ == pre.players@.update(
        seat as int,
        (PlayerSeat { standing: true, ..pre.players@[seat as int] }),
    ));
    let ghost mid1 = *r;
    let b = &mut r.draw_acted[seat];
    *b = true;
    assert(r.draw_acted@ == pre.draw_acted@.update(seat as int, true));
    assert(*r == (Room { players: r.players, draw_acted: r.draw_acted, ..pre }));
    proof {
        crate::room::lemma_sum_update(
            pre.players@,
            seat as int,
            (PlayerSeat { standing: true, ..pre.players@[seat as int] }),
        );
        assert(r.seat_alive(seat as int));
    }
    let flow = advance_after_draw_action(r);
    Ok(flow)
}

/// Why a fold would be rejected, or nothing when it is legal. Folding is
/// never out of turn: any surviving seat may fold while the hand is acting.
pub open spec fn fold_rejection(r: Room, id: u128) -> Option<ActionError> {
    if !(r.phase is Acting) {
        Some(ActionError::WrongPhase)
    } else {
        match seat_index(r.players@, id) {
            None => Some(ActionError::NotSeated),
            Some(seat) => if r.players@[seat].folded {
                Some(ActionError::AlreadyFolded)
            } else {
                None
            },
        }
    }
}

/// Fold: sets the caller's folded flag for the rest of the hand and marks
/// its acted slots. When this leaves at most one surviving seat, that seat
/// is immediately credited the whole pot and the hand moves straight to the
/// comments phase, skipping all further turn logic; otherwise the turn
/// advances in whichever sub-phase is running.
pub fn player_fold(r: &mut Room, id: u128) -> (res: Result<HandFlow, ActionError>)
    requires
        old(r).wf(),
    ensures
        final(r).wf(),
        (res is Err) == (fold_rejection(*old(r), id) is Some),
        res is Err ==> res->Err_0 == fold_rejection(*old(r), id)->Some_0 && *final(r) == *old(r),
        res is Ok ==> ({
            let seat = seat_index(old(r).players@, id)->Some_0;
            let s0 = old(r).players@[seat];
            let players1 = old(r).players@.update(seat, (PlayerSeat { folded: true, ..s0 }));
            let acted_d1 = old(r).draw_acted@.update(seat, true);
            let acted_b1 = old(r).betting_acted@.update(seat, true);
            &&& (if alive_count(players1) <= 1 {
                res->Ok_0 is HandDone && survivor_outcome(
                    players1,
                    old(r).pot as int,
                    old(r).dealer_seat as int,
                    *final(r),
                    res->Ok_0->HandDone_0,
                )
            } else if old(r).in_betting {
                bet_turn_outcome(
                    players1,
                    acted_b1,
                    old(r).pot as int,
                    old(r).dealer_seat as int,
                    old(r).round as int,
                    old(r).to_act_seat as int,
                    *final(r),
                    res->Ok_0,
                ) && (res->Ok_0 is Continued ==> final(r).draw_acted@ == acted_d1)
            } else {
                draw_turn_outcome(
                    players1,
                    acted_d1,
                    old(r).dealer_seat as int,
                    old(r).to_act_seat as int,
                    *final(r),
                    res->Ok_0,
                )
            })
            &&& advance_frame(*old(r), *final(r))
            &&& (!(res->Ok_0 is HandDone) ==> final(r).pot == old(r).pot && final(r).wealth()
                == old(r).wealth() && final(r).community_cards == old(r).community_cards)
        }),
        final(r).wealth() <= old(r).wealth(),
{
    if !matches!(r.phase, Phase::Acting) {
        return Err(ActionError::WrongPhase);
    }
    let seat = match seat_of(r, id) {
        Some(s) => s,
        None => {
            return Err(ActionError::NotSeated);
        },
    };
    if r.players[seat].folded {
        return Err(ActionError::AlreadyFolded);
    }
    let ghost pre = *r;
    let p = &mut r.players[seat];
    p.folded = true;
    assert(r.players@ == pre.players@.update(
        seat as int,
        (PlayerSeat { folded: true, ..pre.players@[seat as int] }),
    ));
    let ghost players1 = r.players@;
    proof {
        crate::room::lemma_sum_update(
            pre.players@,
            seat as int,
            (PlayerSeat { folded: true, ..pre.players@[seat as int] }),
        );
        crate::room::lemma_sums_nonneg(pre.players@);
    }
    let b = &mut r.draw_acted[seat];
    *b = true;
    assert(r.draw_acted@ == pre.draw_acted@.update(seat as int, true));
    let in_betting = r.in_betting;
    if in_betting {
        let b2 = &mut r.betting_acted[seat];
        *b2 = true;
        assert(r.betting_acted@ == pre.betting_acted@.update(seat as int, true));
    }

    let alive = alive_seats(r);
    if alive.len() <= 1 {
        assert(alive_count(players1) <= 1);
        let rep = award_last_player_and_reset(r);
        assert(survivor_outcome(
            players1,
            pre.pot as int,
            pre.dealer_seat as int,
            *r,
            rep,
        ));
        assert(advance_frame(pre, *r));
        return Ok(HandFlow::HandDone(rep));
    }
    proof {
        lemma_alive_exists(players1);
        let j = choose|j: int| 0 <= j < players1.len() && !players1[j].folded;
        assert(r.seat_alive(j));
    }
    if in_betting {
        let ghost acted_b1 = pre.betting_acted@.update(seat as int, true);
        let ghost acted_d1 = pre.draw_acted@.update(seat as int, true);
        let flow = advance_betting_turn(r);
        assert(bet_turn_outcome(
            players1,
            acted_b1,
            pre.pot as int,
            pre.dealer_seat as int,
            pre.round as int,
            pre.to_act_seat as int,
            *r,
            flow,
        ));
        assert(flow is Continued ==> r.draw_acted@ == acted_d1);
        assert(advance_frame(pre, *r));
        Ok(flow)
    } else {
        let ghost acted_d1 = pre.draw_acted@.update(seat as int, true);
        let flow = advance_after_draw_action(r);
        assert(draw_turn_outcome(
            players1,
            acted_d1,
            pre.dealer_seat as int,
            pre.to_act_seat as int,
            *r,
            flow,
        ));
        assert(advance_frame(pre, *r));
        Ok(flow)
    }
}

/// What is reported back from one accepted take-card intent.
#[derive(Debug)]
pub struct DrawOutcome {
    /// The card drawn, face down, already added to the caller's hand; absent
    /// exactly when the deck was exhausted and the hand aborted to showdown.
    pub card: Option<Card>,
    /// Whether the draw busted the hand past 27, forcing a fold.
    pub busted: bool,
    /// Where the intent left the hand.
    pub flow: HandFlow,
}

/// Why a take-card would be rejected, or nothing when it is legal.
pub open spec fn take_card_rejection(r: Room, id: u128) -> Option<ActionError> {
    if !(r.phase is Acting) {
        Some(ActionError::WrongPhase)
    } else if r.in_betting {
        Some(ActionError::InBetting)
    } else {
        match seat_index(r.players@, id) {
            None => Some(ActionError::NotSeated),
            Some(seat) => if r.to_act_seat as int != seat {
                Some(ActionError::NotYourTurn)
            } else if r.players@[seat].folded {
                Some(ActionError::AlreadyFolded)
            } else if r.players@[seat].standing {
                Some(ActionError::AlreadyStanding)
            } else if r.players@[seat].up_cards@.len() + r.players@[seat].down_cards@.len()
                >= crate::room::spec_max_cards(r.game_variant) {
                Some(ActionError::MaxCardsReached)
            } else if r.deck is None {
                Some(ActionError::DeckMissing)
            } else {
                None
            },
        }
    }
}

/// A seat equal to another except for one more face-down card.
pub open spec fn seat_with_extra_down(pre: PlayerSeat, post: PlayerSeat, c: Card) -> bool {
    &&& post == (PlayerSeat { down_cards: post.down_cards, ..pre })
    &&& post.down_cards@ == pre.down_cards@.push(c)
}

/// Take a card: the caller draws one card face down from the deck into their
/// private hand. If the new hand busts past 27 the seat is force-folded (and
/// when that leaves at most one survivor, the pot is awarded at once);
/// otherwise the seat is marked acted and the turn advances. A deck found
/// exhausted mid-hand never crashes or wedges the room: the hand aborts to a
/// showdown over the cards dealt so far.
pub fn player_take_card(r: &mut Room, id: u128) -> (res: Result<DrawOutcome, ActionError>)
    requires
        old(r).wf(),
    ensures
        final(r).wf(),
        (res is Err) == (take_card_rejection(*old(r), id) is Some),
        res is Err ==> res->Err_0 == take_card_rejection(*old(r), id)->Some_0 && *final(r) == *old(
            r,
        ),
        res is Ok && old(r).deck->Some_0.cards@.len() == 0 ==> ({
            let out = res->Ok_0;
            &&& out.card is None
            &&& out.busted == false
            &&& out.flow is HandDone
            &&& showdown_outcome(
                old(r).players@,
                old(r).pot as int,
                old(r).dealer_seat as int,
                *final(r),
                out.flow->HandDone_0,
            )
            &&& advance_frame(*old(r), *final(r))
        }),
        res is Ok && old(r).deck->Some_0.cards@.len() > 0 ==> ({
            let seat = seat_index(old(r).players@, id)->Some_0;
            let deck0 = old(r).deck->Some_0.cards@;
            let c = (Card { rank: deck0.last().rank, suit: deck0.last().suit, face_up: false });
            let out = res->Ok_0;
            &&& out.card == Some(c)
            &&& exists|players1: Seq<PlayerSeat>|
                {
                    &&& players1.len() == old(r).players@.len()
                    &&& #[trigger] seat_with_extra_down(
                        old(r).players@[seat],
                        players1[seat],
                        c,
                    )
                    &&& (forall|j: int|
                        0 <= j < players1.len() && j != seat ==> players1[j] == old(r).players@[j])
                    &&& out.busted == (best_under(
                        seat_cards(players1, seat),
                        TARGET_HIGH as int,
                    ) is None)
                    &&& (if out.busted {
                        let players2 = players1.update(
                            seat,
                            (PlayerSeat { folded: true, ..players1[seat] }),
                        );
                        let acted1 = old(r).draw_acted@.update(seat, true);
                        if alive_count(players2) <= 1 {
                            out.flow is HandDone && survivor_outcome(
                                players2,
                                old(r).pot as int,
                                old(r).dealer_seat as int,
                                *final(r),
                                out.flow->HandDone_0,
                            )
                        } else {
                            draw_turn_outcome(
                                players2,
                                acted1,
                                old(r).dealer_seat as int,
                                old(r).to_act_seat as int,
                                *final(r),
                                out.flow,
                            )
                        }
                    } else {
                        draw_turn_outcome(
                            players1,
                            old(r).draw_acted@.update(seat, true),
                            old(r).dealer_seat as int,
                            old(r).to_act_seat as int,
                            *final(r),
                            out.flow,
                        )
                    })
                }
            &&& (!(out.flow is HandDone) ==> final(r).deck is Some
                && final(r).deck->Some_0.cards@ == deck0.drop_last())
            &&& (!(out.flow is HandDone) ==> final(r).pot == old(r).pot && final(r).wealth()
                == old(r).wealth() && final(r).community_cards == old(r).community_cards)
            &&& advance_frame(*old(r), *final(r))
        }),
        final(r).wealth() <= old(r).wealth(),
{
    if !matches!(r.phase, Phase::Acting) {
        return Err(ActionError::WrongPhase);
    }
    if r.in_betting {
        return Err(ActionError::InBetting);
    }
    let seat = match seat_of(r, id) {
        Some(s) => s,
        None => {
            return Err(ActionError::NotSeated);
        },
    };
    if r.to_act_seat != seat {
        return Err(ActionError::NotYourTurn);
    }
    if r.players[seat].folded {
        return Err(ActionError::AlreadyFolded);
    }
    if r.players[seat].standing {
        return Err(ActionError::AlreadyStanding);
    }
    let held = r.players[seat].up_cards.len() + r.players[seat].down_cards.len();
    if held >= r.game_variant.max_cards_per_player() {
        return Err(ActionError::MaxCardsReached);
    }
    let deck_empty = match &r.deck {
        None => {
            return Err(ActionError::DeckMissing);
        },
        Some(d) => d.cards.len() == 0,
    };
    if deck_empty {
        let rep = do_showdown(r);
        return Ok(DrawOutcome { card: None, busted: false, flow: HandFlow::HandDone(rep) });
    }

    let ghost pre = *r;
    let c = match &mut r.deck {
        Some(d) => d.draw(false),
        None => None,
    };
    let c = match c {
        Some(c) => c,
        None => {
            assert(false);
            return Err(ActionError::DeckMissing);
        },
    };
    assert(*r == (Room { deck: r.deck, ..pre }));
    let ghost mid0 = *r;

    let p = &mut r.players[seat];
    p.down_cards.push(c);
    assert(seat_with_extra_down(pre.players@[seat as int], r.players@[seat as int], c));
    assert(forall|j: int|
        0 <= j < r.players@.len() && j != seat as int ==> r.players@[j] == pre.players@[j]);
    assert(*r == (Room { players: r.players, deck: r.deck, ..pre }));
    let ghost players1 = r.players@;
    proof {
        crate::room::lemma_sum_update(pre.players@, seat as int, r.players@[seat as int]);
        crate::room::lemma_sums_nonneg(pre.players@);
    }

    let cards = crate::room::all_cards(&r.players[seat]);
    assert(cards@ == seat_cards(players1, seat as int));
    let sc = score_hand(&cards);
    let busted = sc.bust_27;

    if busted {
        let p = &mut r.players[seat];
        p.folded = true;
        assert(r.players@ == players1.update(
            seat as int,
            (PlayerSeat { folded: true, ..players1[seat as int] }),
        ));
        let ghost players2 = r.players@;
        proof {
            crate::room::lemma_sum_update(players1, seat as int, r.players@[seat as int]);
        }
        let b = &mut r.draw_acted[seat];
        *b = true;
        assert(r.draw_acted@ == pre.draw_acted@.update(seat as int, true));
        assert(*r == (Room {
            players: r.players,
            deck: r.deck,
            draw_acted: r.draw_acted,
            ..pre
        }));

        let alive = alive_seats(r);
        if alive.len() <= 1 {
            let rep = award_last_player_and_reset(r);
            return Ok(DrawOutcome { card: Some(c), busted: true, flow: HandFlow::HandDone(rep) });
        }
        proof {
            lemma_alive_exists(players2);
            let j = choose|j: int| 0 <= j < players2.len() && !players2[j].folded;
            assert(r.seat_alive(j));
        }
        let flow = advance_after_draw_action(r);
        Ok(DrawOutcome { card: Some(c), busted: true, flow })
    } else {
        let b = &mut r.draw_acted[seat];
        *b = true;
        assert(r.draw_acted@ == pre.draw_acted@.update(seat as int, true));
        assert(*r == (Room {
            players: r.players,
            deck: r.deck,
            draw_acted: r.draw_acted,
            ..pre
        }));
        proof {
            assert(r.seat_alive(seat as int));
        }
        let flow = advance_after_draw_action(r);
        Ok(DrawOutcome { card: Some(c), busted: false, flow })
    }
}

} // verus!
