//! The engine's cross-cutting laws, stated and proved once: chip
//! conservation across a hand, turn legality, the raise cap, and dealer
//! rotation across consecutive hands.

use vstd::prelude::*;
use crate::room::Room;

verus! {

/// Chip conservation. Total wealth — the pot plus every seat's stack — is
/// preserved by each accepted intent within a hand (each turn operation's
/// contract says so of its step); this law lifts that to any sequence of
/// such steps: across a whole trace of rooms in which every step preserves
/// wealth, the wealth at the end equals the wealth at the start.
pub proof fn lemma_chip_conservation(trace: Seq<Room>)
    requires
        trace.len() > 0,
        forall|i: int|
            0 <= i < trace.len() - 1 ==> (#[trigger] trace[i + 1].wealth()) == trace[i].wealth(),
    ensures
        trace.last().wealth() == trace.first().wealth(),
    decreases trace.len(),
{
    if trace.len() > 1 {
        lemma_chip_conservation(trace.drop_last());
        assert(trace.drop_last().last() == trace[trace.len() - 2]);
        assert(trace[(trace.len() - 2) + 1].wealth() == trace[trace.len() - 2].wealth());
    }
}

/// Turn legality. In any well-formed room in its acting phase, the turn
/// cursor singles out exactly one seat, and that seat has never folded —
/// nor, in the draw sub-phase, is it standing or already acted. Every turn
/// operation requires and re-establishes `wf`, so this holds between any two
/// intents.
pub proof fn lemma_turn_legality(r: Room)
    requires
        r.wf(),
        r.phase is Acting,
    ensures
        r.seat_alive(r.to_act_seat as int),
        forall|i: int| r.seat_ok(i) && i == r.to_act_seat ==> r.seat_alive(i),
        !r.in_betting ==> !r.players@[r.to_act_seat as int].standing && !r.draw_acted@[r.to_act_seat as int],
{
}

/// Raise cap. In any well-formed room in a betting round, the raises made
/// never exceed the table's cap, and the standing bet is exactly the raise
/// count times the round's unit. `player_bet_or_raise` refuses a raise at
/// the cap, and every operation re-establishes `wf`, so this holds for the
/// lifetime of every betting round.
pub proof fn lemma_raise_cap(r: Room)
    requires
        r.wf(),
        r.phase is Acting,
        r.in_betting,
    ensures
        r.raises_made <= r.max_raises,
        r.current_bet == r.raises_made as int * r.spec_bet_unit(),
{
}

/// The dealer seat after `k` one-seat rotations around `n` seats.
pub open spec fn rotate_dealer(d: int, n: int, k: nat) -> int
    decreases k,
{
    if k == 0 {
        d
    } else {
        rotate_dealer((d + 1) % n, n, (k - 1) as nat)
    }
}

/// Dealer rotation. The end-of-hand reset advances the dealer exactly one
/// seat (its contract states `dealer == (old + 1) % n`), so after `k`
/// consecutive hands with no seating changes the dealer sits `k` seats left
/// of where it started, modulo the seat count.
pub proof fn lemma_dealer_rotation(d: int, n: int, k: nat)
    requires
        0 <= d < n,
    ensures
        rotate_dealer(d, n, k) == (d + k) % n,
    decreases k,
{
    if k == 0 {
        vstd::arithmetic::div_mod::lemma_small_mod(d as nat, n as nat);
    } else {
        let d1 = (d + 1) % n;
        vstd::arithmetic::div_mod::lemma_mod_bound(d + 1, n);
        lemma_dealer_rotation(d1, n, (k - 1) as nat);
        assert(rotate_dealer(d, n, k) == (d1 + (k - 1)) % n);
        vstd::arithmetic::div_mod::lemma_add_mod_noop(d + 1, k - 1, n);
        vstd::arithmetic::div_mod::lemma_mod_twice(d + 1, n);
        assert((d1 % n + (k - 1) % n) % n == (d + 1 + (k - 1)) % n);
        vstd::arithmetic::div_mod::lemma_mod_add_multiples_vanish(k - 1, n);
        vstd::arithmetic::div_mod::lemma_add_mod_noop_right(d1, k - 1, n);
    }
}

} // verus!
