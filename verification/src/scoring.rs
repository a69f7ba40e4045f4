//! Dual-target scoring: a hand is scored against 7 and against 27 at once,
//! with each Ace counting as 1 or as 11.
//!
//! Card values involve halves (face cards are worth one half point), so all
//! arithmetic here is carried out in half-points: every value is twice the
//! number of points it stands for. The targets 7 and 27 become 14 and 54.

use vstd::prelude::*;
use crate::cards::{Card, Rank};

verus! {

/// Target for the low pot, in half-points (7 points).
pub const TARGET_LOW: u64 = 14;

/// Target for the high pot, in half-points (27 points).
pub const TARGET_HIGH: u64 = 54;

/// Half-point value of a non-Ace rank: face cards count one half point,
/// numeric ranks their face value.
pub open spec fn spec_value_nonace(r: Rank) -> int {
    match r {
        Rank::Two => 4,
        Rank::Three => 6,
        Rank::Four => 8,
        Rank::Five => 10,
        Rank::Six => 12,
        Rank::Seven => 14,
        Rank::Eight => 16,
        Rank::Nine => 18,
        Rank::Ten => 20,
        Rank::Jack => 1,
        Rank::Queen => 1,
        Rank::King => 1,
        Rank::Ace => 0,
    }
}

/// Sum of the half-point values of all non-Ace cards in the hand.
pub open spec fn base_halves(cards: Seq<Card>) -> int
    decreases cards.len(),
{
    if cards.len() == 0 {
        0
    } else {
        base_halves(cards.drop_last()) + if cards.last().rank is Ace {
            0int
        } else {
            spec_value_nonace(cards.last().rank)
        }
    }
}

/// How many Aces the hand holds.
pub open spec fn ace_count(cards: Seq<Card>) -> nat
    decreases cards.len(),
{
    if cards.len() == 0 {
        0
    } else {
        ace_count(cards.drop_last()) + if cards.last().rank is Ace {
            1nat
        } else {
            0nat
        }
    }
}

/// Total half-point value of the hand when `elevens` of its Aces count as 11
/// (22 half-points) and the rest as 1 (2 half-points).
pub open spec fn total_halves(cards: Seq<Card>, elevens: int) -> int {
    base_halves(cards) + 2 * (ace_count(cards) - elevens) + 22 * elevens
}

/// The best (largest) total not exceeding `target` among the Ace assignments
/// with fewer than `k` elevens; `None` when every such total busts.
pub open spec fn best_upto(cards: Seq<Card>, target: int, k: nat) -> Option<int>
    decreases k,
{
    if k == 0 {
        None
    } else {
        let prev = best_upto(cards, target, (k - 1) as nat);
        let cur = total_halves(cards, k - 1);
        if cur <= target {
            match prev {
                None => Some(cur),
                Some(p) => Some(if p >= cur { p } else { cur }),
            }
        } else {
            prev
        }
    }
}

/// The best total not exceeding `target` over every possible Ace assignment.
pub open spec fn best_under(cards: Seq<Card>, target: int) -> Option<int> {
    best_upto(cards, target, ace_count(cards) + 1)
}

/// The dual-target score of one hand, in half-points: e.g. a
/// `best_under_7` of `Some(12)` stands for six points. `bust_27` is set
/// exactly when no Ace assignment stays within 27 points.
#[derive(Debug, Clone, Copy, PartialEq)]
pub struct Score {
    pub best_under_7: Option<u64>,
    pub dist_to_7: Option<u64>,
    pub best_under_27: Option<u64>,
    pub dist_to_27: Option<u64>,
    pub bust_27: bool,
}

/// Whether an executable optional half-point value matches its mathematical
/// counterpart.
pub open spec fn opt_matches(v: Option<u64>, m: Option<int>) -> bool {
    match m {
        None => v is None,
        Some(x) => v is Some && v->Some_0 == x,
    }
}

/// What `score_hand` promises of its result: each best-under field is the
/// best reachable total for its target, each distance field is the gap left
/// to its target, and `bust_27` marks that no assignment stays within 27.
pub open spec fn score_ok(cards: Seq<Card>, s: Score) -> bool {
    &&& opt_matches(s.best_under_7, best_under(cards, TARGET_LOW as int))
    &&& opt_matches(
        s.dist_to_7,
        match best_under(cards, TARGET_LOW as int) {
            None => None::<int>,
            Some(v) => Some(TARGET_LOW - v),
        },
    )
    &&& opt_matches(s.best_under_27, best_under(cards, TARGET_HIGH as int))
    &&& opt_matches(
        s.dist_to_27,
        match best_under(cards, TARGET_HIGH as int) {
            None => None::<int>,
            Some(v) => Some(TARGET_HIGH - v),
        },
    )
    &&& s.bust_27 == (best_under(cards, TARGET_HIGH as int) is None)
}

/// Half-point value of a non-Ace card, as a machine integer.
pub fn card_value_nonace(rank: Rank) -> (v: u64)
    requires
        !(rank is Ace),
    ensures
        v == spec_value_nonace(rank),
{
    match rank {
        Rank::Two => 4,
        Rank::Three => 6,
        Rank::Four => 8,
        Rank::Five => 10,
        Rank::Six => 12,
        Rank::Seven => 14,
        Rank::Eight => 16,
        Rank::Nine => 18,
        Rank::Ten => 20,
        Rank::Jack => 1,
        Rank::Queen => 1,
        Rank::King => 1,
        Rank::Ace => 0,
    }
}

proof fn lemma_base_halves_bounds(cards: Seq<Card>)
    ensures
        0 <= base_halves(cards) <= 20 * cards.len(),
        ace_count(cards) <= cards.len(),
    decreases cards.len(),
{
    if cards.len() > 0 {
        lemma_base_halves_bounds(cards.drop_last());
    }
}

/// Every reachable total not exceeding the target is accounted for: the best
/// is `None` only when all of them bust, and otherwise it is one of them, at
/// least as large as any other within the target.
proof fn lemma_best_upto_correct(cards: Seq<Card>, target: int, k: nat)
    ensures
        best_upto(cards, target, k) is None <==> forall|e: int|
            0 <= e < k ==> total_halves(cards, e) > target,
        best_upto(cards, target, k) is Some ==> {
            let b = best_upto(cards, target, k)->Some_0;
            &&& b <= target
            &&& exists|e: int| 0 <= e < k && total_halves(cards, e) == b
            &&& forall|e: int|
                0 <= e < k && total_halves(cards, e) <= target ==> total_halves(cards, e) <= b
        },
    decreases k,
{
    if k > 0 {
        lemma_best_upto_correct(cards, target, (k - 1) as nat);
        let cur = total_halves(cards, k - 1);
        if cur <= target {
            assert(total_halves(cards, k - 1) == cur);
        }
    }
}

/// The bust flag is exact: a hand busts the high target precisely when every
/// assignment of Ace values (1 or 11 per Ace) exceeds 27 points.
pub proof fn lemma_bust_iff(cards: Seq<Card>)
    ensures
        best_under(cards, TARGET_HIGH as int) is None <==> forall|e: int|
            0 <= e <= ace_count(cards) ==> total_halves(cards, e) > TARGET_HIGH,
{
    lemma_best_upto_correct(cards, TARGET_HIGH as int, ace_count(cards) + 1);
}

/// Pure dual-target hand evaluation. An empty hand scores zero against both
/// targets (it never busts); play never calls this on an empty hand.
pub fn score_hand(cards: &Vec<Card>) -> (s: Score)
    requires
        cards@.len() <= 52,
    ensures
        score_ok(cards@, s),
{
    let ghost cs = cards@;
    let mut base: u64 = 0;
    let mut aces: usize = 0;
    let mut i: usize = 0;
    while i < cards.len()
        invariant
            i <= cards@.len() <= 52,
            base == base_halves(cards@.take(i as int)),
            aces == ace_count(cards@.take(i as int)),
            base <= 20 * i,
            aces <= i,
        decreases cards@.len() - i,
    {
        let c = cards[i];
        assert(cards@.take(i + 1).drop_last() =~= cards@.take(i as int));
        assert(cards@.take(i + 1).last() == c);
        if matches!(c.rank, Rank::Ace) {
            aces = aces + 1;
        } else {
            base = base + card_value_nonace(c.rank);
        }
        i = i + 1;
    }
    assert(cards@.take(cards@.len() as int) =~= cards@);

    let mut best7: Option<u64> = None;
    let mut best27: Option<u64> = None;
    let mut e: usize = 0;
    while e < aces + 1
        invariant
            e <= aces + 1,
            aces == ace_count(cs),
            base == base_halves(cs),
            base <= 20 * 52,
            aces <= 52,
            opt_matches(best7, best_upto(cs, TARGET_LOW as int, e as nat)),
            opt_matches(best27, best_upto(cs, TARGET_HIGH as int, e as nat)),
        decreases aces + 1 - e,
    {
        let total: u64 = base + 2 * ((aces - e) as u64) + 22 * (e as u64);
        assert(total == total_halves(cs, e as int));
        proof {
            let cur = total_halves(cs, e as int);
            let k: nat = (e + 1) as nat;
            assert((k - 1) as nat == e as nat);
            assert(best_upto(cs, TARGET_LOW as int, k) == {
                let prev = best_upto(cs, TARGET_LOW as int, e as nat);
                if cur <= TARGET_LOW as int {
                    match prev {
                        None => Some(cur),
                        Some(p) => Some(if p >= cur { p } else { cur }),
                    }
                } else {
                    prev
                }
            });
            assert(best_upto(cs, TARGET_HIGH as int, k) == {
                let prev = best_upto(cs, TARGET_HIGH as int, e as nat);
                if cur <= TARGET_HIGH as int {
                    match prev {
                        None => Some(cur),
                        Some(p) => Some(if p >= cur { p } else { cur }),
                    }
                } else {
                    prev
                }
            });
        }
        if total <= TARGET_LOW {
            best7 = match best7 {
                None => Some(total),
                Some(p) => Some(if p >= total { p } else { total }),
            };
        }
        if total <= TARGET_HIGH {
            best27 = match best27 {
                None => Some(total),
                Some(p) => Some(if p >= total { p } else { total }),
            };
        }
        e = e + 1;
    }

    proof {
        lemma_best_upto_correct(cs, TARGET_LOW as int, (aces + 1) as nat);
        lemma_best_upto_correct(cs, TARGET_HIGH as int, (aces + 1) as nat);
    }
    let dist7 = match best7 {
        None => None,
        Some(v) => Some(TARGET_LOW - v),
    };
    let dist27 = match best27 {
        None => None,
        Some(v) => Some(TARGET_HIGH - v),
    };
    Score {
        best_under_7: best7,
        dist_to_7: dist7,
        best_under_27: best27,
        dist_to_27: dist27,
        bust_27: best27.is_none(),
    }
}

/// Whole-point value of a rank in the simple additive scale (Ace 1 up to
/// King 13) used by the quick client-side estimates.
pub open spec fn spec_simple_value(r: Rank) -> int {
    match r {
        Rank::Ace => 1,
        Rank::Two => 2,
        Rank::Three => 3,
        Rank::Four => 4,
        Rank::Five => 5,
        Rank::Six => 6,
        Rank::Seven => 7,
        Rank::Eight => 8,
        Rank::Nine => 9,
        Rank::Ten => 10,
        Rank::Jack => 11,
        Rank::Queen => 12,
        Rank::King => 13,
    }
}

/// Sum of the simple whole-point values of a hand.
pub open spec fn simple_sum(cards: Seq<Card>) -> int
    decreases cards.len(),
{
    if cards.len() == 0 {
        0
    } else {
        simple_sum(cards.drop_last()) + spec_simple_value(cards.last().rank)
    }
}

proof fn lemma_simple_sum_bounds(cards: Seq<Card>)
    ensures
        0 <= simple_sum(cards) <= 13 * cards.len(),
    decreases cards.len(),
{
    if cards.len() > 0 {
        lemma_simple_sum_bounds(cards.drop_last());
    }
}

fn sum_simple(cards: &Vec<Card>) -> (t: u32)
    requires
        cards@.len() <= 52,
    ensures
        t == simple_sum(cards@),
{
    let mut total: u32 = 0;
    let mut i: usize = 0;
    while i < cards.len()
        invariant
            i <= cards@.len() <= 52,
            total == simple_sum(cards@.take(i as int)),
            total <= 13 * i,
        decreases cards@.len() - i,
    {
        assert(cards@.take(i + 1).drop_last() =~= cards@.take(i as int));
        let v: u32 = match cards[i].rank {
            Rank::Ace => 1,
            Rank::Two => 2,
            Rank::Three => 3,
            Rank::Four => 4,
            Rank::Five => 5,
            Rank::Six => 6,
            Rank::Seven => 7,
            Rank::Eight => 8,
            Rank::Nine => 9,
            Rank::Ten => 10,
            Rank::Jack => 11,
            Rank::Queen => 12,
            Rank::King => 13,
        };
        total = total + v;
        i = i + 1;
    }
    assert(cards@.take(cards@.len() as int) =~= cards@);
    total
}

/// Quick low-target estimate on the simple scale: the hand's whole-point sum
/// when it does not exceed 7, `None` for an empty hand or a larger sum.
pub fn calculate_low_score(cards: &Vec<Card>) -> (r: Option<u32>)
    requires
        cards@.len() <= 52,
    ensures
        cards@.len() == 0 ==> r is None,
        cards@.len() > 0 ==> r == if simple_sum(cards@) <= 7 {
            Some(simple_sum(cards@) as u32)
        } else {
            None::<u32>
        },
{
    if cards.len() == 0 {
        return None;
    }
    let total = sum_simple(cards);
    if total <= 7 {
        Some(total)
    } else {
        None
    }
}

/// Quick high-target estimate on the simple scale: the hand's whole-point
/// sum, and whether it busts 27. An empty hand counts as busted.
pub fn calculate_high_score(cards: &Vec<Card>) -> (r: (u32, bool))
    requires
        cards@.len() <= 52,
    ensures
        cards@.len() == 0 ==> r == (0u32, true),
        cards@.len() > 0 ==> r == (simple_sum(cards@) as u32, simple_sum(cards@) > 27),
{
    if cards.len() == 0 {
        return (0, true);
    }
    let total = sum_simple(cards);
    (total, total > 27)
}

} // verus!
