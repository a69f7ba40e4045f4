//! The canonical turn-order rule: scan seats cyclically starting just after a
//! given seat, wrapping modulo seat count, and select the first seat that
//! satisfies the sub-phase's eligibility test.

use vstd::prelude::*;
use crate::room::{Room, PlayerSeat};

verus! {

/// Seat `pos + k` steps around a table of `n` seats.
pub open spec fn cyc(n: int, pos: int, k: int) -> int {
    if pos + k < n {
        pos + k
    } else {
        pos + k - n
    }
}

/// The first seat satisfying `pred` among the `left` seats starting at `pos`
/// and wrapping modulo `n`; `None` when none of them does.
pub open spec fn scan_first(n: int, pos: int, left: nat, pred: spec_fn(int) -> bool) -> Option<
    int,
>
    decreases left,
{
    if left == 0 {
        None
    } else if pred(pos) {
        Some(pos)
    } else {
        scan_first(
            n,
            if pos + 1 < n {
                pos + 1
            } else {
                0
            },
            (left - 1) as nat,
            pred,
        )
    }
}

/// An empty scan result means every seat it visited fails the test.
pub proof fn lemma_scan_none(n: int, pos: int, left: nat, pred: spec_fn(int) -> bool)
    requires
        0 <= pos < n,
        left <= n,
        scan_first(n, pos, left, pred) is None,
    ensures
        forall|k: int| 0 <= k < left ==> !pred(cyc(n, pos, k)),
    decreases left,
{
    if left > 0 {
        let next = if pos + 1 < n {
            pos + 1
        } else {
            0
        };
        lemma_scan_none(n, next, (left - 1) as nat, pred);
        assert forall|k: int| 0 <= k < left implies !pred(cyc(n, pos, k)) by {
            if k == 0 {
                assert(cyc(n, pos, 0) == pos);
            } else {
                assert(cyc(n, next, k - 1) == cyc(n, pos, k));
            }
        }
    }
}

/// A full-circle scan finds a seat whenever some seat passes the test.
pub proof fn lemma_scan_finds(n: int, pos: int, pred: spec_fn(int) -> bool)
    requires
        0 <= pos < n,
        exists|j: int| 0 <= j < n && #[trigger] pred(j),
    ensures
        scan_first(n, pos, n as nat, pred) is Some,
{
    if scan_first(n, pos, n as nat, pred) is None {
        lemma_scan_none(n, pos, n as nat, pred);
        let j = choose|j: int| 0 <= j < n && #[trigger] pred(j);
        let k = if j >= pos {
            j - pos
        } else {
            j - pos + n
        };
        assert(cyc(n, pos, k) == j);
        assert(!pred(j));
    }
}

/// The seat-eligibility test of the betting sub-phase, as a scan predicate:
/// not folded and not yet acted this round.
pub open spec fn bet_pred(players: Seq<PlayerSeat>, acted: Seq<bool>) -> spec_fn(int) -> bool {
    |i: int| 0 <= i < players.len() && !players[i].folded && !acted[i]
}

/// The seat-eligibility test of the draw sub-phase, as a scan predicate: not
/// folded, not standing, not yet acted this round.
pub open spec fn draw_pred(players: Seq<PlayerSeat>, acted: Seq<bool>) -> spec_fn(int) -> bool {
    |i: int| 0 <= i < players.len() && !players[i].folded && !players[i].standing && !acted[i]
}

/// The not-folded test used when a betting round opens, as a scan predicate.
pub open spec fn alive_pred(players: Seq<PlayerSeat>) -> spec_fn(int) -> bool {
    |i: int| 0 <= i < players.len() && !players[i].folded
}

/// The test for seats that may still draw this hand (not folded and not
/// standing), as a scan predicate.
pub open spec fn can_draw_pred(players: Seq<PlayerSeat>) -> spec_fn(int) -> bool {
    |i: int| 0 <= i < players.len() && !players[i].folded && !players[i].standing
}

/// The first not-folded seat left of `from`, wrapping around the table.
pub fn next_alive_left_of(r: &Room, from: usize) -> (s: usize)
    requires
        r.players@.len() > 0,
        from < r.players@.len(),
        exists|j: int| #[trigger] r.seat_alive(j),
    ensures
        r.seat_alive(s as int),
        Some(s as int) == scan_first(
            r.players@.len() as int,
            cyc(r.players@.len() as int, from as int, 1),
            r.players@.len() as nat,
            alive_pred(r.players@),
        ),
{
    let ghost n_spec = r.players@.len() as int;
    let ghost pred = alive_pred(r.players@);
    let n = r.players.len();
    let ghost start = cyc(n_spec, from as int, 1);
    let mut pos: usize = if from + 1 < n {
        from + 1
    } else {
        0
    };
    let mut left: usize = n;
    proof {
        let j = choose|j: int| #[trigger] r.seat_alive(j);
        assert(pred(j));
        lemma_scan_finds(n_spec, start, pred);
    }
    while left > 0
        invariant
            n == r.players@.len(),
            0 < n,
            pos < n,
            left <= n,
            start == cyc(n as int, from as int, 1),
            from < n,
            pred == alive_pred(r.players@),
            scan_first(n as int, start, n as nat, pred) == scan_first(
                n as int,
                pos as int,
                left as nat,
                pred,
            ),
            scan_first(n as int, start, n as nat, pred) is Some,
        decreases left,
    {
        if !r.players[pos].folded {
            assert(pred(pos as int));
            assert(scan_first(n as int, pos as int, left as nat, pred) == Some(pos as int));
            return pos;
        }
        assert(!pred(pos as int));
        pos = if pos + 1 < n {
            pos + 1
        } else {
            0
        };
        left = left - 1;
    }
    assert(false);
    from
}

/// The first seat left of `from` that is alive and not standing, wrapping
/// around the table.
pub fn next_drawer_left_of(r: &Room, from: usize) -> (s: usize)
    requires
        r.players@.len() > 0,
        from < r.players@.len(),
        exists|j: int| #[trigger] r.seat_alive(j) && !r.players@[j].standing,
    ensures
        r.seat_alive(s as int) && !r.players@[s as int].standing,
        Some(s as int) == scan_first(
            r.players@.len() as int,
            cyc(r.players@.len() as int, from as int, 1),
            r.players@.len() as nat,
            can_draw_pred(r.players@),
        ),
{
    let ghost n_spec = r.players@.len() as int;
    let ghost pred = can_draw_pred(r.players@);
    let n = r.players.len();
    let ghost start = cyc(n_spec, from as int, 1);
    let mut pos: usize = if from + 1 < n {
        from + 1
    } else {
        0
    };
    let mut left: usize = n;
    proof {
        let j = choose|j: int| #[trigger] r.seat_alive(j) && !r.players@[j].standing;
        assert(pred(j));
        lemma_scan_finds(n_spec, start, pred);
    }
    while left > 0
        invariant
            n == r.players@.len(),
            0 < n,
            pos < n,
            left <= n,
            start == cyc(n as int, from as int, 1),
            from < n,
            pred == can_draw_pred(r.players@),
            scan_first(n as int, start, n as nat, pred) == scan_first(
                n as int,
                pos as int,
                left as nat,
                pred,
            ),
            scan_first(n as int, start, n as nat, pred) is Some,
        decreases left,
    {
        if !r.players[pos].folded && !r.players[pos].standing {
            assert(pred(pos as int));
            assert(scan_first(n as int, pos as int, left as nat, pred) == Some(pos as int));
            return pos;
        }
        assert(!pred(pos as int));
        pos = if pos + 1 < n {
            pos + 1
        } else {
            0
        };
        left = left - 1;
    }
    assert(false);
    from
}

/// The next seat owed the turn in the draw sub-phase: the first seat left of
/// `from` that is alive, not standing and has not acted; `None` when the
/// whole circle holds no such seat.
pub fn next_draw_turn(r: &Room, from: usize) -> (s: Option<usize>)
    requires
        r.players@.len() > 0,
        from < r.players@.len(),
        r.draw_acted@.len() == r.players@.len(),
    ensures
        match s {
            Some(i) => r.draw_eligible(i as int) && Some(i as int) == scan_first(
                r.players@.len() as int,
                cyc(r.players@.len() as int, from as int, 1),
                r.players@.len() as nat,
                draw_pred(r.players@, r.draw_acted@),
            ),
            None => scan_first(
                r.players@.len() as int,
                cyc(r.players@.len() as int, from as int, 1),
                r.players@.len() as nat,
                draw_pred(r.players@, r.draw_acted@),
            ) is None,
        },
{
    let ghost n_spec = r.players@.len() as int;
    let ghost pred = draw_pred(r.players@, r.draw_acted@);
    let n = r.players.len();
    let ghost start = cyc(n_spec, from as int, 1);
    let mut pos: usize = if from + 1 < n {
        from + 1
    } else {
        0
    };
    let mut left: usize = n;
    while left > 0
        invariant
            n == r.players@.len(),
            r.draw_acted@.len() == r.players@.len(),
            0 < n,
            pos < n,
            left <= n,
            start == cyc(n as int, from as int, 1),
            from < n,
            pred == draw_pred(r.players@, r.draw_acted@),
            scan_first(n as int, start, n as nat, pred) == scan_first(
                n as int,
                pos as int,
                left as nat,
                pred,
            ),
        decreases left,
    {
        if !r.players[pos].folded && !r.players[pos].standing && !r.draw_acted[pos] {
            assert(pred(pos as int));
            assert(scan_first(n as int, pos as int, left as nat, pred) == Some(pos as int));
            return Some(pos);
        }
        assert(!pred(pos as int));
        pos = if pos + 1 < n {
            pos + 1
        } else {
            0
        };
        left = left - 1;
    }
    None
}

/// The next seat owed the turn in the betting sub-phase: the first seat left
/// of `from` that is alive and has not acted; `None` when the whole circle
/// holds no such seat.
pub fn next_bet_turn(r: &Room, from: usize) -> (s: Option<usize>)
    requires
        r.players@.len() > 0,
        from < r.players@.len(),
        r.betting_acted@.len() == r.players@.len(),
    ensures
        match s {
            Some(i) => r.bet_eligible(i as int) && Some(i as int) == scan_first(
                r.players@.len() as int,
                cyc(r.players@.len() as int, from as int, 1),
                r.players@.len() as nat,
                bet_pred(r.players@, r.betting_acted@),
            ),
            None => scan_first(
                r.players@.len() as int,
                cyc(r.players@.len() as int, from as int, 1),
                r.players@.len() as nat,
                bet_pred(r.players@, r.betting_acted@),
            ) is None,
        },
{
    let ghost n_spec = r.players@.len() as int;
    let ghost pred = bet_pred(r.players@, r.betting_acted@);
    let n = r.players.len();
    let ghost start = cyc(n_spec, from as int, 1);
    let mut pos: usize = if from + 1 < n {
        from + 1
    } else {
        0
    };
    let mut left: usize = n;
    while left > 0
        invariant
            n == r.players@.len(),
            r.betting_acted@.len() == r.players@.len(),
            0 < n,
            pos < n,
            left <= n,
            start == cyc(n as int, from as int, 1),
            from < n,
            pred == bet_pred(r.players@, r.betting_acted@),
            scan_first(n as int, start, n as nat, pred) == scan_first(
                n as int,
                pos as int,
                left as nat,
                pred,
            ),
        decreases left,
    {
        if !r.players[pos].folded && !r.betting_acted[pos] {
            assert(pred(pos as int));
            assert(scan_first(n as int, pos as int, left as nat, pred) == Some(pos as int));
            return Some(pos);
        }
        assert(!pred(pos as int));
        pos = if pos + 1 < n {
            pos + 1
        } else {
            0
        };
        left = left - 1;
    }
    None
}

} // verus!

verus! {

/// Scans agree under pointwise-equal eligibility tests.
pub proof fn lemma_scan_equiv(
    n: int,
    pos: int,
    left: nat,
    p1: spec_fn(int) -> bool,
    p2: spec_fn(int) -> bool,
)
    requires
        0 <= pos < n,
        forall|i: int| 0 <= i < n ==> #[trigger] p1(i) == p2(i),
    ensures
        scan_first(n, pos, left, p1) == scan_first(n, pos, left, p2),
    decreases left,
{
    if left > 0 && !p1(pos) {
        lemma_scan_equiv(
            n,
            if pos + 1 < n {
                pos + 1
            } else {
                0
            },
            (left - 1) as nat,
            p1,
            p2,
        );
    }
}

} // verus!
