//! Showdown and payout: scoring every surviving seat against both targets,
//! splitting the pot between the low and high winners, and the end-of-hand
//! reveal and reset that rotates the dealer.

use vstd::prelude::*;
use crate::cards::Card;
use crate::room::{Room, PlayerSeat, Phase, chips_sum, committed_sum, alive_count, lemma_sums_nonneg, lemma_sum_element, lemma_sum_update, all_cards};
use crate::scoring::{score_hand, best_under, opt_matches, TARGET_LOW, TARGET_HIGH};

verus! {

/// All cards seat `i` holds, as a mathematical sequence.
pub open spec fn seat_cards(players: Seq<PlayerSeat>, i: int) -> Seq<Card> {
    players[i].up_cards@ + players[i].down_cards@
}

/// Seat `i`'s distance to the low target, when its hand reaches it at all.
pub open spec fn low_dist_of(players: Seq<PlayerSeat>, i: int) -> Option<int> {
    match best_under(seat_cards(players, i), TARGET_LOW as int) {
        None => None,
        Some(b) => Some(TARGET_LOW - b),
    }
}

/// Seat `i`'s distance to the high target, when its hand does not bust.
pub open spec fn high_dist_of(players: Seq<PlayerSeat>, i: int) -> Option<int> {
    match best_under(seat_cards(players, i), TARGET_HIGH as int) {
        None => None,
        Some(b) => Some(TARGET_HIGH - b),
    }
}

/// Seat `i` exists and has not folded.
pub open spec fn seat_in(players: Seq<PlayerSeat>, i: int) -> bool {
    0 <= i < players.len() && !players[i].folded
}

/// Seat `i` wins the low pot: it survived, its hand reaches the low target,
/// and no surviving qualifying seat sits closer to it.
pub open spec fn low_winner(players: Seq<PlayerSeat>, i: int) -> bool {
    &&& seat_in(players, i)
    &&& low_dist_of(players, i) is Some
    &&& forall|j: int|
        seat_in(players, j) && #[trigger] low_dist_of(players, j) is Some ==> low_dist_of(
            players,
            i,
        )->Some_0 <= low_dist_of(players, j)->Some_0
}

/// Seat `i` wins the high pot: it survived, did not bust, and no surviving
/// non-busted seat sits closer to the high target.
pub open spec fn high_winner(players: Seq<PlayerSeat>, i: int) -> bool {
    &&& seat_in(players, i)
    &&& high_dist_of(players, i) is Some
    &&& forall|j: int|
        seat_in(players, j) && #[trigger] high_dist_of(players, j) is Some ==> high_dist_of(
            players,
            i,
        )->Some_0 <= high_dist_of(players, j)->Some_0
}

/// What one completed hand reports for broadcasting: both winner lists, the
/// per-player payouts, every seat's revealed cards, and the dealer the table
/// rotated to.
#[derive(Debug, Clone)]
pub struct ShowdownReport {
    pub winners7: Vec<u128>,
    pub winners27: Vec<u128>,
    pub payouts: Vec<(u128, u64)>,
    pub reveal: Vec<(u128, Vec<Card>)>,
    pub new_dealer_id: Option<u128>,
}

/// Moves `amt` chips from the pot to seat `seat`; the payout counterpart of
/// `commit`, conserving total wealth.
pub(crate) fn pay_to_seat(r: &mut Room, seat: usize, amt: u64)
    requires
        old(r).seat_ok(seat as int),
        amt <= old(r).pot,
        old(r).wealth() <= u64::MAX,
    ensures
        final(r).players@ == old(r).players@.update(
            seat as int,
            (PlayerSeat {
                chips: (old(r).players@[seat as int].chips + amt) as u64,
                ..old(r).players@[seat as int]
            }),
        ),
        old(r).players@[seat as int].chips + amt <= u64::MAX,
        final(r).pot == old(r).pot - amt,
        *final(r) == (Room { pot: final(r).pot, players: final(r).players, ..*old(r) }),
        chips_sum(final(r).players@) == chips_sum(old(r).players@) + amt,
        committed_sum(final(r).players@) == committed_sum(old(r).players@),
        alive_count(final(r).players@) == alive_count(old(r).players@),
        final(r).wealth() == old(r).wealth(),
{
    proof {
        lemma_sum_element(r.players@, seat as int);
        lemma_sums_nonneg(r.players@);
    }
    let ghost pre = r.players@;
    let ghost s = r.players@[seat as int];
    let p = &mut r.players[seat];
    p.chips = p.chips + amt;
    assert(r.players@ == pre.update(seat as int, (PlayerSeat { chips: (s.chips + amt) as u64, ..s })));
    r.pot = r.pot - amt;
    proof {
        lemma_sum_update(pre, seat as int, (PlayerSeat { chips: (s.chips + amt) as u64, ..s }));
    }
}

/// A sequence of players all of whose round commitments are zero sums to a
/// zero commitment.
pub proof fn lemma_committed_zero(players: Seq<PlayerSeat>)
    requires
        forall|i: int| 0 <= i < players.len() ==> players[i].committed_round == 0,
    ensures
        committed_sum(players) == 0,
    decreases players.len(),
{
    if players.len() > 0 {
        lemma_committed_zero(players.drop_last());
    }
}

/// Two seat lists agreeing pointwise on chips have the same chip sum.
pub proof fn lemma_chips_pointwise(a: Seq<PlayerSeat>, b: Seq<PlayerSeat>)
    requires
        a.len() == b.len(),
        forall|i: int| 0 <= i < a.len() ==> a[i].chips == b[i].chips,
    ensures
        chips_sum(a) == chips_sum(b),
    decreases a.len(),
{
    if a.len() > 0 {
        lemma_chips_pointwise(a.drop_last(), b.drop_last());
    }
}

/// A seat with every per-hand flag and card cleared.
pub open spec fn seat_cleared(p: PlayerSeat) -> bool {
    &&& p.folded == false
    &&& p.standing == false
    &&& p.up_cards@.len() == 0
    &&& p.down_cards@.len() == 0
    &&& p.ready == false
    &&& p.committed_round == 0
}

/// The seat keeps who sits in it.
pub open spec fn seat_identity_kept(pre: PlayerSeat, post: PlayerSeat) -> bool {
    post.id == pre.id && post.name == pre.name
}

/// What the end-of-hand reset promises of every seat: identity, name and
/// stack kept; every per-hand flag and card cleared.
pub open spec fn seat_reset(pre: PlayerSeat, post: PlayerSeat) -> bool {
    &&& seat_identity_kept(pre, post)
    &&& post.chips == pre.chips
    &&& seat_cleared(post)
}

/// The seats still in the hand among the first `k`, in seat order: the
/// seats whose cards a showdown may reveal.
pub open spec fn alive_seat_idxs(players: Seq<PlayerSeat>, k: int) -> Seq<int>
    decreases k,
{
    if k <= 0 {
        Seq::empty()
    } else if !players[k - 1].folded {
        alive_seat_idxs(players, k - 1).push(k - 1)
    } else {
        alive_seat_idxs(players, k - 1)
    }
}

/// The surviving-seat list walks the table in order: entries are alive seats
/// below `k`, strictly increasing.
pub proof fn lemma_alive_seat_idxs_props(players: Seq<PlayerSeat>, k: int)
    requires
        k >= 0,
    ensures
        ({
            let idxs = alive_seat_idxs(players, k);
            &&& forall|t: int|
                0 <= t < idxs.len() ==> 0 <= #[trigger] idxs[t] < k && !players[idxs[t]].folded
            &&& forall|t1: int, t2: int| 0 <= t1 < t2 < idxs.len() ==> idxs[t1] < idxs[t2]
        }),
    decreases k,
{
    if k > 0 {
        lemma_alive_seat_idxs_props(players, k - 1);
        let prev = alive_seat_idxs(players, k - 1);
        let idxs = alive_seat_idxs(players, k);
        assert forall|t: int|
            0 <= t < idxs.len() implies 0 <= #[trigger] idxs[t] < k && !players[idxs[t]].folded by {
            if t < prev.len() {
                assert(idxs[t] == prev[t]);
            }
        }
    }
}

/// Seat lists agreeing on who folded pick out the same surviving seats.
pub proof fn lemma_alive_seat_idxs_congruent(a: Seq<PlayerSeat>, b: Seq<PlayerSeat>, k: int)
    requires
        forall|i: int| 0 <= i < k ==> (#[trigger] a[i]).folded == b[i].folded,
    ensures
        alive_seat_idxs(a, k) == alive_seat_idxs(b, k),
    decreases k,
{
    if k > 0 {
        lemma_alive_seat_idxs_congruent(a, b, k - 1);
        assert(alive_seat_idxs(a, k) =~= alive_seat_idxs(b, k));
    }
}

/// The reveal carries exactly the surviving seats' identities and full card
/// sets, in seat order; a folded seat's hidden cards stay hidden.
pub open spec fn reveal_ok(players: Seq<PlayerSeat>, revealed: Seq<(u128, Vec<Card>)>) -> bool {
    let idxs = alive_seat_idxs(players, players.len() as int);
    &&& revealed.len() == idxs.len()
    &&& forall|t: int|
        0 <= t < revealed.len() ==> (#[trigger] revealed[t]).0 == players[idxs[t]].id
            && revealed[t].1@ == seat_cards(players, idxs[t])
}

/// Reveals every surviving seat's full card set, rotates the dealer one seat
/// to the left, clears all per-hand state — the board included — and moves
/// the room to the comments phase. Whatever is left in the pot at this point
/// is forfeited.
pub(crate) fn reveal_and_reset(r: &mut Room) -> (rep: (Vec<(u128, Vec<Card>)>, Option<u128>))
    requires
        old(r).players@.len() > 0,
        old(r).dealer_seat < old(r).players@.len(),
        old(r).wealth() <= u64::MAX,
    ensures
        ({
            let pre = *old(r);
            let post = *final(r);
            let n = pre.players@.len() as int;
            let nd = (pre.dealer_seat + 1) % n;
            &&& post.players@.len() == n
            &&& forall|i: int| 0 <= i < n ==> seat_reset(pre.players@[i], #[trigger] post.players@[i])
            &&& post.dealer_seat == nd
            &&& post.current_dealer_id == Some(pre.players@[nd].id)
            &&& rep.1 == Some(pre.players@[nd].id)
            &&& post.phase == Phase::Comments
            &&& post.pot == 0
            &&& post.deck is None
            &&& post.in_betting == false
            &&& post.current_bet == 0
            &&& post.round == 0
            &&& post.raises_made == 0
            &&& post.elected_players@.len() == 0
            &&& post.community_cards@.len() == 0
            &&& reveal_ok(pre.players@, rep.0@)
            &&& chips_sum(post.players@) == chips_sum(pre.players@)
            &&& committed_sum(post.players@) == 0
            &&& post.wealth() == chips_sum(pre.players@)
            &&& post == (Room {
                players: post.players,
                dealer_seat: post.dealer_seat,
                current_dealer_id: post.current_dealer_id,
                phase: post.phase,
                pot: post.pot,
                deck: post.deck,
                in_betting: post.in_betting,
                current_bet: post.current_bet,
                round: post.round,
                raises_made: post.raises_made,
                elected_players: post.elected_players,
                community_cards: post.community_cards,
                ..pre
            })
            &&& post.limits_ok() == pre.limits_ok()
        }),
{
    let n = r.players.len();
    let ghost pre_players = r.players@;

    let mut revealed: Vec<(u128, Vec<Card>)> = Vec::new();
    let mut i: usize = 0;
    while i < n
        invariant
            n == r.players@.len(),
            r.players@ == pre_players,
            i <= n,
            revealed@.len() == alive_seat_idxs(pre_players, i as int).len(),
            forall|t: int|
                0 <= t < revealed@.len() ==> {
                    let s = alive_seat_idxs(pre_players, i as int)[t];
                    &&& 0 <= s < i
                    &&& (#[trigger] revealed@[t]).0 == pre_players[s].id
                    &&& revealed@[t].1@ == pre_players[s].up_cards@ + pre_players[s].down_cards@
                },
        decreases n - i,
    {
        proof {
            lemma_alive_seat_idxs_props(pre_players, i + 1);
        }
        if !r.players[i].folded {
            let cards = all_cards(&r.players[i]);
            revealed.push((r.players[i].id, cards));
            assert(alive_seat_idxs(pre_players, i + 1) =~= alive_seat_idxs(
                pre_players,
                i as int,
            ).push(i as int));
        } else {
            assert(alive_seat_idxs(pre_players, i + 1) =~= alive_seat_idxs(pre_players, i as int));
        }
        i = i + 1;
    }
    assert(reveal_ok(pre_players, revealed@));

    let old_dealer = r.dealer_seat;
    let nd = if old_dealer + 1 < n {
        old_dealer + 1
    } else {
        0
    };
    proof {
        if old_dealer + 1 < n {
            vstd::arithmetic::div_mod::lemma_small_mod((old_dealer + 1) as nat, n as nat);
        } else {
            vstd::arithmetic::div_mod::lemma_mod_self_0(n as int);
        }
        assert(nd as int == (old_dealer + 1) % (n as int));
    }
    r.dealer_seat = nd;
    let new_dealer_id = r.players[nd].id;
    r.current_dealer_id = Some(new_dealer_id);
    r.elected_players = Vec::new();
    r.phase = Phase::Comments;
    r.pot = 0;
    r.deck = None;
    r.in_betting = false;
    r.current_bet = 0;
    r.round = 0;
    r.raises_made = 0;
    r.community_cards = Vec::new();

    let ghost mid = *r;
    let mut k: usize = 0;
    while k < n
        invariant
            n == r.players@.len(),
            k <= n,
            forall|j: int| 0 <= j < k ==> seat_reset(pre_players[j], #[trigger] r.players@[j]),
            forall|j: int| k <= j < n ==> r.players@[j] == pre_players[j],
            *r == (Room { players: r.players, ..mid }),
        decreases n - k,
    {
        let p = &mut r.players[k];
        p.folded = false;
        p.standing = false;
        p.up_cards = Vec::new();
        p.down_cards = Vec::new();
        p.ready = false;
        p.committed_round = 0;
        k = k + 1;
    }
    proof {
        lemma_chips_pointwise(pre_players, r.players@);
        lemma_committed_zero(r.players@);
    }
    (revealed, Some(new_dealer_id))
}

/// The first seat that has not folded, if any seat survives.
pub open spec fn first_alive_from(players: Seq<PlayerSeat>, k: int) -> Option<int>
    decreases players.len() - k,
{
    if k < 0 || k >= players.len() {
        None
    } else if !players[k].folded {
        Some(k)
    } else {
        first_alive_from(players, k + 1)
    }
}

/// What awarding the pot to the sole survivor leaves behind, relative to the
/// seats `players1` and pot `pot1` the hand held when it ended, and the
/// dealer seat `dealer` it was played under.
pub open spec fn survivor_outcome(
    players1: Seq<PlayerSeat>,
    pot1: int,
    dealer: int,
    post: Room,
    rep: ShowdownReport,
) -> bool {
    let n = players1.len() as int;
    let nd = (dealer + 1) % n;
    &&& rep.winners7@.len() == 0
    &&& rep.winners27@.len() == 0
    &&& (match first_alive_from(players1, 0) {
        Some(w) => {
            &&& rep.payouts@ == seq![(players1[w].id, pot1 as u64)]
            &&& forall|i: int|
                0 <= i < n ==> (#[trigger] post.players@[i]).chips == players1[i].chips + if i == w {
                    pot1
                } else {
                    0int
                }
            &&& post.wealth() == chips_sum(players1) + pot1
        },
        None => {
            &&& rep.payouts@.len() == 0
            &&& forall|i: int|
                0 <= i < n ==> (#[trigger] post.players@[i]).chips == players1[i].chips
            &&& post.wealth() == chips_sum(players1)
        },
    })
    &&& post.players@.len() == n
    &&& forall|i: int|
        0 <= i < n ==> seat_identity_kept(players1[i], #[trigger] post.players@[i]) && seat_cleared(
            post.players@[i],
        )
    &&& post.dealer_seat == nd
    &&& post.current_dealer_id == Some(players1[nd].id)
    &&& rep.new_dealer_id == Some(players1[nd].id)
    &&& post.phase == Phase::Comments
    &&& post.pot == 0 && post.deck is None && post.in_betting == false
    &&& post.current_bet == 0 && post.round == 0 && post.raises_made == 0
    &&& post.elected_players@.len() == 0
    &&& post.community_cards@.len() == 0
    &&& reveal_ok(players1, rep.reveal@)
    &&& committed_sum(post.players@) == 0
    &&& post.wealth() <= chips_sum(players1) + pot1
}

/// Awards the whole pot to the sole surviving seat (nothing moves when no
/// seat survives), then reveals and resets as at a full showdown. The report
/// carries no scored winners.
pub(crate) fn award_last_player_and_reset(r: &mut Room) -> (rep: ShowdownReport)
    requires
        old(r).players@.len() > 0,
        old(r).dealer_seat < old(r).players@.len(),
        old(r).wealth() <= u64::MAX,
    ensures
        survivor_outcome(
            old(r).players@,
            old(r).pot as int,
            old(r).dealer_seat as int,
            *final(r),
            rep,
        ),
        *final(r) == (Room {
            players: final(r).players,
            dealer_seat: final(r).dealer_seat,
            current_dealer_id: final(r).current_dealer_id,
            phase: final(r).phase,
            pot: final(r).pot,
            deck: final(r).deck,
            in_betting: final(r).in_betting,
            current_bet: final(r).current_bet,
            round: final(r).round,
            raises_made: final(r).raises_made,
            elected_players: final(r).elected_players,
            community_cards: final(r).community_cards,
            ..*old(r)
        }),
        final(r).limits_ok() == old(r).limits_ok(),
{
    let ghost pre = *r;
    let mut payouts: Vec<(u128, u64)> = Vec::new();

    let n = r.players.len();
    let mut w: usize = 0;
    while w < n
        invariant_except_break
            w <= n,
            n == r.players@.len(),
            *r == *old(r),
            first_alive_from(r.players@, 0) == first_alive_from(r.players@, w as int),
        ensures
            w <= n,
            n == r.players@.len(),
            *r == *old(r),
            first_alive_from(r.players@, 0) == if w < n {
                Some(w as int)
            } else {
                None::<int>
            },
        decreases n - w,
    {
        if !r.players[w].folded {
            break;
        }
        w = w + 1;
    }
    let found = w < n;
    if found {
        let amt = r.pot;
        let id = r.players[w].id;
        pay_to_seat(r, w, amt);
        payouts.push((id, amt));
        assert(payouts@ =~= seq![(pre.players@[w as int].id, pre.pot)]);
    }
    let ghost mid = *r;
    let (revealed, new_dealer_id) = reveal_and_reset(r);
    proof {
        let n_ = pre.players@.len() as int;
        if found {
            assert(first_alive_from(pre.players@, 0) == Some(w as int));
            lemma_sum_element(pre.players@, w as int);
            lemma_sums_nonneg(pre.players@);
            assert(forall|i: int|
                0 <= i < n_ ==> seat_cards(mid.players@, i) == seat_cards(pre.players@, i));
            assert(forall|i: int|
                0 <= i < n_ ==> (#[trigger] mid.players@[i]).id == pre.players@[i].id
                    && mid.players@[i].name == pre.players@[i].name
                    && mid.players@[i].folded == pre.players@[i].folded);
            assert(forall|i: int|
                0 <= i < n_ ==> (#[trigger] mid.players@[i]).chips == pre.players@[i].chips + (
                if i == w as int {
                    pre.pot as int
                } else {
                    0int
                }));
            lemma_alive_seat_idxs_congruent(mid.players@, pre.players@, n_);
            lemma_alive_seat_idxs_props(pre.players@, n_);
            assert(reveal_ok(pre.players@, revealed@));
        } else {
            assert(first_alive_from(pre.players@, 0) is None);
            assert(mid == pre);
        }
    }
    ShowdownReport {
        winners7: Vec::new(),
        winners27: Vec::new(),
        payouts,
        reveal: revealed,
        new_dealer_id,
    }
}

/// The per-seat low-pot distance cell the showdown works from: the seat's
/// distance to the low target when it survived and qualifies, else nothing.
pub open spec fn low_cell(players: Seq<PlayerSeat>, i: int) -> Option<int> {
    if seat_in(players, i) {
        low_dist_of(players, i)
    } else {
        None
    }
}

/// The per-seat high-pot distance cell: the seat's distance to the high
/// target when it survived and did not bust, else nothing.
pub open spec fn high_cell(players: Seq<PlayerSeat>, i: int) -> Option<int> {
    if seat_in(players, i) {
        high_dist_of(players, i)
    } else {
        None
    }
}

/// The smaller of two optional distances; an absent one never wins.
pub open spec fn opt_min(a: Option<int>, b: Option<int>) -> Option<int> {
    match a {
        None => b,
        Some(x) => match b {
            None => Some(x),
            Some(y) => Some(
                if x <= y {
                    x
                } else {
                    y
                },
            ),
        },
    }
}

/// Minimum low-pot distance among the first `k` seats.
pub open spec fn min_low(players: Seq<PlayerSeat>, k: int) -> Option<int>
    decreases k,
{
    if k <= 0 {
        None
    } else {
        opt_min(min_low(players, k - 1), low_cell(players, k - 1))
    }
}

/// Minimum high-pot distance among the first `k` seats.
pub open spec fn min_high(players: Seq<PlayerSeat>, k: int) -> Option<int>
    decreases k,
{
    if k <= 0 {
        None
    } else {
        opt_min(min_high(players, k - 1), high_cell(players, k - 1))
    }
}

proof fn lemma_min_low_props(players: Seq<PlayerSeat>, k: int)
    requires
        k >= 0,
    ensures
        min_low(players, k) is None ==> forall|j: int| 0 <= j < k ==> low_cell(players, j) is None,
        min_low(players, k) is Some ==> {
            let m = min_low(players, k)->Some_0;
            &&& exists|j: int| 0 <= j < k && low_cell(players, j) == Some(m)
            &&& forall|j: int|
                0 <= j < k && #[trigger] low_cell(players, j) is Some ==> m <= low_cell(
                    players,
                    j,
                )->Some_0
        },
    decreases k,
{
    if k > 0 {
        lemma_min_low_props(players, k - 1);
    }
}

proof fn lemma_min_high_props(players: Seq<PlayerSeat>, k: int)
    requires
        k >= 0,
    ensures
        min_high(players, k) is None ==> forall|j: int|
            0 <= j < k ==> high_cell(players, j) is None,
        min_high(players, k) is Some ==> {
            let m = min_high(players, k)->Some_0;
            &&& exists|j: int| 0 <= j < k && high_cell(players, j) == Some(m)
            &&& forall|j: int|
                0 <= j < k && #[trigger] high_cell(players, j) is Some ==> m <= high_cell(
                    players,
                    j,
                )->Some_0
        },
    decreases k,
{
    if k > 0 {
        lemma_min_high_props(players, k - 1);
    }
}

/// A seat wins the low pot exactly when its distance cell attains the
/// minimum over the whole table.
pub proof fn lemma_low_winner_iff(players: Seq<PlayerSeat>, i: int)
    requires
        0 <= i < players.len(),
    ensures
        low_winner(players, i) <==> (low_cell(players, i) is Some && low_cell(players, i)
            == min_low(players, players.len() as int)),
{
    let n = players.len() as int;
    lemma_min_low_props(players, n);
    if low_winner(players, i) {
        assert(low_cell(players, i) is Some);
        let m = min_low(players, n)->Some_0;
        let j = choose|j: int| 0 <= j < n && low_cell(players, j) == Some(m);
        assert(seat_in(players, j) && low_dist_of(players, j) is Some);
        assert(low_cell(players, i)->Some_0 <= m);
        assert(m <= low_cell(players, i)->Some_0);
    }
    if low_cell(players, i) is Some && low_cell(players, i) == min_low(players, n) {
        assert forall|j: int|
            seat_in(players, j) && #[trigger] low_dist_of(players, j) is Some implies low_dist_of(
            players,
            i,
        )->Some_0 <= low_dist_of(players, j)->Some_0 by {
            assert(low_cell(players, j) is Some);
        }
    }
}

/// A seat wins the high pot exactly when its distance cell attains the
/// minimum over the whole table.
pub proof fn lemma_high_winner_iff(players: Seq<PlayerSeat>, i: int)
    requires
        0 <= i < players.len(),
    ensures
        high_winner(players, i) <==> (high_cell(players, i) is Some && high_cell(players, i)
            == min_high(players, players.len() as int)),
{
    let n = players.len() as int;
    lemma_min_high_props(players, n);
    if high_winner(players, i) {
        assert(high_cell(players, i) is Some);
        let m = min_high(players, n)->Some_0;
        let j = choose|j: int| 0 <= j < n && high_cell(players, j) == Some(m);
        assert(seat_in(players, j) && high_dist_of(players, j) is Some);
        assert(high_cell(players, i)->Some_0 <= m);
        assert(m <= high_cell(players, i)->Some_0);
    }
    if high_cell(players, i) is Some && high_cell(players, i) == min_high(players, n) {
        assert forall|j: int|
            seat_in(players, j) && #[trigger] high_dist_of(players, j) is Some implies high_dist_of(
            players,
            i,
        )->Some_0 <= high_dist_of(players, j)->Some_0 by {
            assert(high_cell(players, j) is Some);
        }
    }
}

/// The low winners' seats among the first `k`, in seat order.
pub open spec fn low_winner_seats(players: Seq<PlayerSeat>, k: int) -> Seq<int>
    decreases k,
{
    if k <= 0 {
        Seq::empty()
    } else if low_winner(players, k - 1) {
        low_winner_seats(players, k - 1).push(k - 1)
    } else {
        low_winner_seats(players, k - 1)
    }
}

/// The high winners' seats among the first `k`, in seat order.
pub open spec fn high_winner_seats(players: Seq<PlayerSeat>, k: int) -> Seq<int>
    decreases k,
{
    if k <= 0 {
        Seq::empty()
    } else if high_winner(players, k - 1) {
        high_winner_seats(players, k - 1).push(k - 1)
    } else {
        high_winner_seats(players, k - 1)
    }
}

/// The low winners' ids, in seat order.
pub open spec fn low_winner_ids(players: Seq<PlayerSeat>, k: int) -> Seq<u128>
    decreases k,
{
    if k <= 0 {
        Seq::empty()
    } else if low_winner(players, k - 1) {
        low_winner_ids(players, k - 1).push(players[k - 1].id)
    } else {
        low_winner_ids(players, k - 1)
    }
}

/// The high winners' ids, in seat order.
pub open spec fn high_winner_ids(players: Seq<PlayerSeat>, k: int) -> Seq<u128>
    decreases k,
{
    if k <= 0 {
        Seq::empty()
    } else if high_winner(players, k - 1) {
        high_winner_ids(players, k - 1).push(players[k - 1].id)
    } else {
        high_winner_ids(players, k - 1)
    }
}

/// Each winner-seat list walks the table in order: entries are winner seats
/// below `k`, strictly increasing, exhaustive, and aligned with the id list.
pub proof fn lemma_low_winner_seats_props(players: Seq<PlayerSeat>, k: int)
    requires
        k >= 0,
    ensures
        ({
            let seats = low_winner_seats(players, k);
            let ids = low_winner_ids(players, k);
            &&& ids.len() == seats.len()
            &&& forall|t: int|
                0 <= t < seats.len() ==> 0 <= #[trigger] seats[t] < k && low_winner(
                    players,
                    seats[t],
                ) && ids[t] == players[seats[t]].id
            &&& forall|t1: int, t2: int| 0 <= t1 < t2 < seats.len() ==> seats[t1] < seats[t2]
            &&& forall|i: int| 0 <= i < k && low_winner(players, i) ==> seats.contains(i)
        }),
    decreases k,
{
    if k > 0 {
        lemma_low_winner_seats_props(players, k - 1);
        let seats = low_winner_seats(players, k);
        let prev = low_winner_seats(players, k - 1);
        assert forall|i: int| 0 <= i < k && low_winner(players, i) implies seats.contains(i) by {
            if i < k - 1 {
                assert(prev.contains(i));
                let t = choose|t: int| 0 <= t < prev.len() && prev[t] == i;
                assert(seats[t] == i);
            } else {
                assert(seats[seats.len() - 1] == i);
            }
        }
    }
}

/// Same walk for the high winners.
pub proof fn lemma_high_winner_seats_props(players: Seq<PlayerSeat>, k: int)
    requires
        k >= 0,
    ensures
        ({
            let seats = high_winner_seats(players, k);
            let ids = high_winner_ids(players, k);
            &&& ids.len() == seats.len()
            &&& forall|t: int|
                0 <= t < seats.len() ==> 0 <= #[trigger] seats[t] < k && high_winner(
                    players,
                    seats[t],
                ) && ids[t] == players[seats[t]].id
            &&& forall|t1: int, t2: int| 0 <= t1 < t2 < seats.len() ==> seats[t1] < seats[t2]
            &&& forall|i: int| 0 <= i < k && high_winner(players, i) ==> seats.contains(i)
        }),
    decreases k,
{
    if k > 0 {
        lemma_high_winner_seats_props(players, k - 1);
        let seats = high_winner_seats(players, k);
        let prev = high_winner_seats(players, k - 1);
        assert forall|i: int| 0 <= i < k && high_winner(players, i) implies seats.contains(i) by {
            if i < k - 1 {
                assert(prev.contains(i));
                let t = choose|t: int| 0 <= t < prev.len() && prev[t] == i;
                assert(seats[t] == i);
            } else {
                assert(seats[seats.len() - 1] == i);
            }
        }
    }
}

/// Whether seat `i` appears among the first `k` entries of a payout list.
pub open spec fn credited(seats: Seq<int>, k: int, i: int) -> bool {
    exists|t: int| 0 <= t < k && seats[t] == i
}

/// What a natural showdown leaves behind, relative to the seats `players1`
/// and pot `pot1` the hand held when it ended, and the dealer seat `dealer`
/// it was played under: exact winner lists, exact payout amounts, every
/// seat's chips credited accordingly, the reveal, and the rotated, reset
/// room in its comments phase.
pub open spec fn showdown_outcome(
    players1: Seq<PlayerSeat>,
    pot1: int,
    dealer: int,
    post: Room,
    rep: ShowdownReport,
) -> bool {
    let n = players1.len() as int;
    let n7 = low_winner_seats(players1, n).len() as int;
    let n27 = high_winner_seats(players1, n).len() as int;
    let each7: int = if n7 > 0 {
        (pot1 / 2) / n7
    } else {
        0
    };
    let each27: int = if n27 > 0 {
        (pot1 - each7 * n7) / n27
    } else {
        0
    };
    let nd = (dealer + 1) % n;
    &&& rep.winners7@ == low_winner_ids(players1, n)
    &&& rep.winners27@ == high_winner_ids(players1, n)
    &&& rep.payouts@.len() == n7 + n27
    &&& forall|k: int|
        0 <= k < n7 ==> #[trigger] rep.payouts@[k] == (low_winner_ids(players1, n)[k], each7 as u64)
    &&& forall|k: int|
        0 <= k < n27 ==> #[trigger] rep.payouts@[n7 + k] == (
            high_winner_ids(players1, n)[k],
            each27 as u64,
        )
    &&& post.players@.len() == n
    &&& forall|i: int|
        0 <= i < n ==> seat_identity_kept(players1[i], #[trigger] post.players@[i]) && seat_cleared(
            post.players@[i],
        )
    &&& forall|i: int|
        0 <= i < n ==> (#[trigger] post.players@[i]).chips == players1[i].chips + (if low_winner(
            players1,
            i,
        ) {
            each7
        } else {
            0int
        }) + (if high_winner(players1, i) {
            each27
        } else {
            0int
        })
    &&& each7 * n7 + each27 * n27 <= pot1
    &&& post.wealth() == chips_sum(players1) + each7 * n7 + each27 * n27
    &&& post.wealth() <= chips_sum(players1) + pot1
    &&& post.dealer_seat == nd
    &&& post.current_dealer_id == Some(players1[nd].id)
    &&& rep.new_dealer_id == Some(players1[nd].id)
    &&& post.phase == Phase::Comments
    &&& post.pot == 0 && post.deck is None && post.in_betting == false
    &&& post.current_bet == 0 && post.round == 0 && post.raises_made == 0
    &&& post.elected_players@.len() == 0
    &&& post.community_cards@.len() == 0
    &&& reveal_ok(players1, rep.reveal@)
    &&& committed_sum(post.players@) == 0
}

/// Natural showdown: scores every surviving seat's full card set against
/// both targets, pays half the pot (integer-divided) evenly to the low
/// winners, pays the remainder evenly to the high winners (when no seat
/// qualifies for the low pot its half rolls into the high remainder), then
/// reveals and resets. Odd split remainders are forfeited, never paid.
#[verifier::rlimit(60)]
pub fn do_showdown(r: &mut Room) -> (rep: ShowdownReport)
    requires
        old(r).players@.len() > 0,
        old(r).seats_ok(),
        old(r).dealer_seat < old(r).players@.len(),
        old(r).money_ok(),
        old(r).limits_ok(),
        old(r).cards_ok(),
    ensures
        showdown_outcome(
            old(r).players@,
            old(r).pot as int,
            old(r).dealer_seat as int,
            *final(r),
            rep,
        ),
        *final(r) == (Room {
            players: final(r).players,
            dealer_seat: final(r).dealer_seat,
            current_dealer_id: final(r).current_dealer_id,
            phase: final(r).phase,
            pot: final(r).pot,
            deck: final(r).deck,
            in_betting: final(r).in_betting,
            current_bet: final(r).current_bet,
            round: final(r).round,
            raises_made: final(r).raises_made,
            elected_players: final(r).elected_players,
            community_cards: final(r).community_cards,
            ..*old(r)
        }),
        final(r).wealth() <= old(r).wealth(),
        final(r).wf(),
{
    let ghost pre = *r;
    let n = r.players.len();

    let mut low_d: Vec<Option<u64>> = Vec::new();
    let mut high_d: Vec<Option<u64>> = Vec::new();
    let mut i: usize = 0;
    while i < n
        invariant
            *r == pre,
            n == r.players@.len(),
            pre.cards_ok(),
            i <= n,
            low_d@.len() == i,
            high_d@.len() == i,
            forall|j: int|
                0 <= j < i ==> opt_matches(#[trigger] low_d@[j], low_cell(pre.players@, j)),
            forall|j: int|
                0 <= j < i ==> opt_matches(#[trigger] high_d@[j], high_cell(pre.players@, j)),
        decreases n - i,
    {
        if !r.players[i].folded {
            let cards = all_cards(&r.players[i]);
            assert(cards@ == seat_cards(pre.players@, i as int));
            let sc = score_hand(&cards);
            low_d.push(sc.dist_to_7);
            high_d.push(sc.dist_to_27);
        } else {
            low_d.push(None);
            high_d.push(None);
        }
        i = i + 1;
    }

    let mut min7: Option<u64> = None;
    let mut min27: Option<u64> = None;
    let mut k: usize = 0;
    while k < n
        invariant
            *r == pre,
            n == r.players@.len(),
            k <= n,
            low_d@.len() == n,
            high_d@.len() == n,
            forall|j: int|
                0 <= j < n ==> opt_matches(#[trigger] low_d@[j], low_cell(pre.players@, j)),
            forall|j: int|
                0 <= j < n ==> opt_matches(#[trigger] high_d@[j], high_cell(pre.players@, j)),
            opt_matches(min7, min_low(pre.players@, k as int)),
            opt_matches(min27, min_high(pre.players@, k as int)),
        decreases n - k,
    {
        match low_d[k] {
            Some(d) => {
                min7 = match min7 {
                    None => Some(d),
                    Some(m) => Some(
                        if m <= d {
                            m
                        } else {
                            d
                        },
                    ),
                };
            },
            None => {},
        }
        match high_d[k] {
            Some(d) => {
                min27 = match min27 {
                    None => Some(d),
                    Some(m) => Some(
                        if m <= d {
                            m
                        } else {
                            d
                        },
                    ),
                };
            },
            None => {},
        }
        k = k + 1;
    }

    let mut w7_ids: Vec<u128> = Vec::new();
    let mut w7_seats: Vec<usize> = Vec::new();
    let mut w27_ids: Vec<u128> = Vec::new();
    let mut w27_seats: Vec<usize> = Vec::new();
    let mut k: usize = 0;
    while k < n
        invariant
            *r == pre,
            n == r.players@.len(),
            k <= n,
            low_d@.len() == n,
            high_d@.len() == n,
            forall|j: int|
                0 <= j < n ==> opt_matches(#[trigger] low_d@[j], low_cell(pre.players@, j)),
            forall|j: int|
                0 <= j < n ==> opt_matches(#[trigger] high_d@[j], high_cell(pre.players@, j)),
            opt_matches(min7, min_low(pre.players@, n as int)),
            opt_matches(min27, min_high(pre.players@, n as int)),
            w7_ids@ == low_winner_ids(pre.players@, k as int),
            w27_ids@ == high_winner_ids(pre.players@, k as int),
            w7_seats@.len() == low_winner_seats(pre.players@, k as int).len(),
            w27_seats@.len() == high_winner_seats(pre.players@, k as int).len(),
            forall|t: int|
                0 <= t < w7_seats@.len() ==> #[trigger] w7_seats@[t] as int == low_winner_seats(
                    pre.players@,
                    k as int,
                )[t],
            forall|t: int|
                0 <= t < w27_seats@.len() ==> #[trigger] w27_seats@[t] as int == high_winner_seats(
                    pre.players@,
                    k as int,
                )[t],
        decreases n - k,
    {
        proof {
            lemma_low_winner_iff(pre.players@, k as int);
            lemma_high_winner_iff(pre.players@, k as int);
        }
        let is_low = match (low_d[k], min7) {
            (Some(d), Some(m)) => d == m,
            _ => false,
        };
        if is_low {
            w7_ids.push(r.players[k].id);
            w7_seats.push(k);
            assert(low_winner(pre.players@, k as int));
        } else {
            assert(!low_winner(pre.players@, k as int));
        }
        let is_high = match (high_d[k], min27) {
            (Some(d), Some(m)) => d == m,
            _ => false,
        };
        if is_high {
            w27_ids.push(r.players[k].id);
            w27_seats.push(k);
            assert(high_winner(pre.players@, k as int));
        } else {
            assert(!high_winner(pre.players@, k as int));
        }
        assert(w7_ids@ =~= low_winner_ids(pre.players@, k + 1));
        assert(w27_ids@ =~= high_winner_ids(pre.players@, k + 1));
        k = k + 1;
    }
    proof {
        lemma_low_winner_seats_props(pre.players@, n as int);
        lemma_high_winner_seats_props(pre.players@, n as int);
        lemma_sums_nonneg(pre.players@);
    }
    let ghost seats7 = low_winner_seats(pre.players@, n as int);
    let ghost seats27 = high_winner_seats(pre.players@, n as int);

    let half: u64 = r.pot / 2;
    let n7 = w7_seats.len();
    let mut each7: u64 = 0;
    if n7 > 0 {
        each7 = half / (n7 as u64);
        proof {
            vstd::arithmetic::div_mod::lemma_fundamental_div_mod(half as int, n7 as int);
            vstd::arithmetic::div_mod::lemma_mod_bound(half as int, n7 as int);
            vstd::arithmetic::mul::lemma_mul_is_commutative(each7 as int, n7 as int);
            assert(each7 * n7 <= half);
        }
        let mut t: usize = 0;
        while t < n7
            invariant
                n == r.players@.len(),
                pre.players@.len() == n,
                n7 == w7_seats@.len(),
                t <= n7,
                each7 * n7 <= half,
                half <= pre.pot,
                pre.wealth() <= u64::MAX,
                forall|u: int|
                    0 <= u < w7_seats@.len() ==> #[trigger] w7_seats@[u] as int == seats7[u],
                seats7 == low_winner_seats(pre.players@, n as int),
                seats7.len() == n7,
                forall|u: int| 0 <= u < seats7.len() ==> 0 <= #[trigger] seats7[u] < n,
                forall|u1: int, u2: int| 0 <= u1 < u2 < seats7.len() ==> seats7[u1] < seats7[u2],
                r.pot == pre.pot - t * each7,
                r.wealth() == pre.wealth(),
                *r == (Room { players: r.players, pot: r.pot, ..pre }),
                forall|i: int|
                    0 <= i < n ==> #[trigger] r.players@[i] == (PlayerSeat {
                        chips: r.players@[i].chips,
                        ..pre.players@[i]
                    }),
                forall|i: int|
                    0 <= i < n ==> (#[trigger] r.players@[i]).chips == pre.players@[i].chips + (
                    if credited(seats7, t as int, i) {
                        each7 as int
                    } else {
                        0int
                    }),
            decreases n7 - t,
        {
            let s = w7_seats[t];
            proof {
                vstd::arithmetic::mul::lemma_mul_inequality(t as int + 1, n7 as int, each7 as int);
                assert((t + 1) * each7 == t * each7 + each7) by (nonlinear_arith);
                assert(each7 <= r.pot);
            }
            pay_to_seat(r, s, each7);
            proof {
                assert forall|i: int|
                    0 <= i < n implies (#[trigger] r.players@[i]).chips == pre.players@[i].chips + (
                if credited(seats7, t + 1, i) {
                    each7 as int
                } else {
                    0int
                }) by {
                    if i == s as int {
                        assert(!credited(seats7, t as int, i));
                        assert(credited(seats7, t + 1, i)) by {
                            assert(seats7[t as int] == i);
                        }
                    } else {
                        assert(credited(seats7, t + 1, i) == credited(seats7, t as int, i)) by {
                            if credited(seats7, t + 1, i) {
                                let u = choose|u: int| 0 <= u < t + 1 && seats7[u] == i;
                                assert(u < t);
                            }
                        }
                    }
                }
                assert((t + 1) * each7 == t * each7 + each7) by (nonlinear_arith);
            }
            t = t + 1;
        }
    }
    proof {
        if n7 == 0 {
            assert forall|i: int| 0 <= i < n implies !low_winner(pre.players@, i) by {
                if low_winner(pre.players@, i) {
                    assert(seats7.contains(i));
                }
            }
        }
        assert forall|i: int|
            0 <= i < n implies (#[trigger] r.players@[i]).chips == pre.players@[i].chips + (
        if low_winner(pre.players@, i) {
            each7 as int
        } else {
            0int
        }) by {
            if low_winner(pre.players@, i) {
                assert(seats7.contains(i));
                let u = choose|u: int| 0 <= u < seats7.len() && seats7[u] == i;
                assert(credited(seats7, n7 as int, i));
            } else {
                if credited(seats7, n7 as int, i) {
                    let u = choose|u: int| 0 <= u < n7 && seats7[u] == i;
                    assert(low_winner(pre.players@, seats7[u]));
                }
            }
        }
    }
    let ghost mid1 = *r;
    assert(mid1.pot == pre.pot - n7 * each7);

    let n27 = w27_seats.len();
    let mut each27: u64 = 0;
    if n27 > 0 {
        each27 = r.pot / (n27 as u64);
        proof {
            assert(each27 == mid1.pot as int / n27 as int);
            vstd::arithmetic::div_mod::lemma_fundamental_div_mod(mid1.pot as int, n27 as int);
            vstd::arithmetic::div_mod::lemma_mod_bound(mid1.pot as int, n27 as int);
            vstd::arithmetic::mul::lemma_mul_is_commutative(each27 as int, n27 as int);
            assert(each27 * n27 <= mid1.pot);
        }
        let mut t: usize = 0;
        while t < n27
            invariant
                n == r.players@.len(),
                pre.players@.len() == n,
                mid1.players@.len() == n,
                n27 == w27_seats@.len(),
                t <= n27,
                each27 * n27 <= mid1.pot,
                mid1.wealth() <= u64::MAX,
                forall|u: int|
                    0 <= u < w27_seats@.len() ==> #[trigger] w27_seats@[u] as int == seats27[u],
                seats27 == high_winner_seats(pre.players@, n as int),
                seats27.len() == n27,
                forall|u: int| 0 <= u < seats27.len() ==> 0 <= #[trigger] seats27[u] < n,
                forall|u1: int, u2: int| 0 <= u1 < u2 < seats27.len() ==> seats27[u1] < seats27[u2],
                r.pot == mid1.pot - t * each27,
                r.wealth() == mid1.wealth(),
                *r == (Room { players: r.players, pot: r.pot, ..mid1 }),
                forall|i: int|
                    0 <= i < n ==> #[trigger] r.players@[i] == (PlayerSeat {
                        chips: r.players@[i].chips,
                        ..mid1.players@[i]
                    }),
                forall|i: int|
                    0 <= i < n ==> (#[trigger] r.players@[i]).chips == mid1.players@[i].chips + (
                    if credited(seats27, t as int, i) {
                        each27 as int
                    } else {
                        0int
                    }),
            decreases n27 - t,
        {
            let s = w27_seats[t];
            proof {
                vstd::arithmetic::mul::lemma_mul_inequality(t as int + 1, n27 as int, each27 as int);
                assert((t + 1) * each27 == t * each27 + each27) by (nonlinear_arith);
                assert(each27 <= r.pot);
            }
            pay_to_seat(r, s, each27);
            proof {
                assert forall|i: int|
                    0 <= i < n implies (#[trigger] r.players@[i]).chips == mid1.players@[i].chips + (
                if credited(seats27, t + 1, i) {
                    each27 as int
                } else {
                    0int
                }) by {
                    if i == s as int {
                        assert(!credited(seats27, t as int, i));
                        assert(credited(seats27, t + 1, i)) by {
                            assert(seats27[t as int] == i);
                        }
                    } else {
                        assert(credited(seats27, t + 1, i) == credited(seats27, t as int, i)) by {
                            if credited(seats27, t + 1, i) {
                                let u = choose|u: int| 0 <= u < t + 1 && seats27[u] == i;
                                assert(u < t);
                            }
                        }
                    }
                }
                assert((t + 1) * each27 == t * each27 + each27) by (nonlinear_arith);
            }
            t = t + 1;
        }
    }
    proof {
        if n27 == 0 {
            assert forall|i: int| 0 <= i < n implies !high_winner(pre.players@, i) by {
                if high_winner(pre.players@, i) {
                    assert(seats27.contains(i));
                }
            }
        }
        assert forall|i: int|
            0 <= i < n implies (#[trigger] r.players@[i]).chips == mid1.players@[i].chips + (
        if high_winner(pre.players@, i) {
            each27 as int
        } else {
            0int
        }) by {
            if high_winner(pre.players@, i) {
                assert(seats27.contains(i));
                let u = choose|u: int| 0 <= u < seats27.len() && seats27[u] == i;
                assert(credited(seats27, n27 as int, i));
            } else {
                if credited(seats27, n27 as int, i) {
                    let u = choose|u: int| 0 <= u < n27 && seats27[u] == i;
                    assert(high_winner(pre.players@, seats27[u]));
                }
            }
        }
    }
    let ghost mid2 = *r;

    let mut payouts: Vec<(u128, u64)> = Vec::new();
    let mut t: usize = 0;
    while t < n7
        invariant
            n7 == w7_ids@.len(),
            t <= n7,
            payouts@.len() == t,
            forall|u: int| 0 <= u < t ==> #[trigger] payouts@[u] == (w7_ids@[u], each7),
        decreases n7 - t,
    {
        payouts.push((w7_ids[t], each7));
        t = t + 1;
    }
    let mut t: usize = 0;
    while t < n27
        invariant
            n7 == w7_ids@.len(),
            n27 == w27_ids@.len(),
            t <= n27,
            payouts@.len() == n7 + t,
            forall|u: int| 0 <= u < n7 ==> #[trigger] payouts@[u] == (w7_ids@[u], each7),
            forall|u: int| 0 <= u < t ==> #[trigger] payouts@[n7 + u] == (w27_ids@[u], each27),
        decreases n27 - t,
    {
        payouts.push((w27_ids[t], each27));
        t = t + 1;
    }

    let (revealed, new_dealer_id) = reveal_and_reset(r);
    proof {
        assert(forall|i: int|
            0 <= i < n ==> seat_cards(mid2.players@, i) == seat_cards(pre.players@, i));
        assert(forall|i: int|
            0 <= i < n ==> (#[trigger] mid2.players@[i]).id == pre.players@[i].id
                && mid2.players@[i].name == pre.players@[i].name
                && mid2.players@[i].folded == pre.players@[i].folded);
        lemma_alive_seat_idxs_congruent(mid2.players@, pre.players@, n as int);
        lemma_alive_seat_idxs_props(pre.players@, n as int);
        assert(reveal_ok(pre.players@, revealed@));
        lemma_sums_nonneg(final(r).players@);
        lemma_committed_zero(final(r).players@);
        vstd::arithmetic::mul::lemma_mul_is_commutative(each7 as int, n7 as int);
        vstd::arithmetic::mul::lemma_mul_is_commutative(each27 as int, n27 as int);
        assert(forall|i: int|
            0 <= i < n ==> (#[trigger] r.players@[i]).chips == mid2.players@[i].chips);
    }
    ShowdownReport {
        winners7: w7_ids,
        winners27: w27_ids,
        payouts,
        reveal: revealed,
        new_dealer_id,
    }
}

} // verus!
