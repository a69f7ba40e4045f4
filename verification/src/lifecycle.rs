//! The hand lifecycle controller: seating and leaving, readiness and hand
//! start, variant-specific dealing, the dealer-election path, the comments
//! phase, scheduling, and table creation.

use vstd::prelude::*;
use vstd::multiset::Multiset;
use crate::cards::{card_face, faces, full_deck, Card, Deck};
use crate::errors::ActionError;
use crate::room::{Room, PlayerSeat, Spectator, Phase, GameVariant, spec_hole_cards, spec_community_cards, committed_sum, lemma_sums_nonneg, lemma_sum_element, lemma_sum_update, lemma_sum_push, lemma_sum_remove, seat_index, seat_of, commit, MAX_PLAYERS, STARTING_CHIPS};
use crate::showdown::{lemma_chips_pointwise, lemma_committed_zero, seat_cards};
use crate::betting::start_betting_round;
use crate::turn::{cyc, scan_first, can_draw_pred, alive_pred, next_drawer_left_of};

verus! {

/// What dealing leaves in one seat: identity and the ante-reduced stack
/// kept; per-hand flags cleared; the variant's initial cards dealt.
pub open spec fn seat_dealt(s0: PlayerSeat, s1: PlayerSeat, v: GameVariant, ante: int) -> bool {
    let pay: int = if ante <= s0.chips {
        ante
    } else {
        s0.chips as int
    };
    &&& s1.id == s0.id
    &&& s1.name == s0.name
    &&& s1.folded == false
    &&& s1.standing == false
    &&& s1.ready == false
    &&& s1.chips == s0.chips - pay
    &&& s1.committed_round == (if spec_community_cards(v) > 0 {
        0int
    } else {
        pay
    })
    &&& s1.up_cards@.len() == (if v is SevenTwentySeven {
        1int
    } else {
        0int
    })
    &&& s1.down_cards@.len() == (if v is SevenTwentySeven {
        1int
    } else {
        spec_hole_cards(v)
    })
    &&& (forall|t: int| 0 <= t < s1.up_cards@.len() ==> (#[trigger] s1.up_cards@[t]).face_up)
    &&& (forall|t: int| 0 <= t < s1.down_cards@.len() ==> !(#[trigger] s1.down_cards@[t]).face_up)
}

/// How many cards dealing consumes from the fresh deck.
pub open spec fn cards_dealt(v: GameVariant, n: int) -> int {
    (if v is SevenTwentySeven {
        2 * n
    } else {
        spec_hole_cards(v) * n
    }) + spec_community_cards(v)
}

/// What starting a hand establishes: every seat reset and dealt its
/// variant's initial cards with its ante committed to the pot, a fresh deck
/// minus the dealt cards, the community flop for variants that play one, and
/// the acting phase opened — in its draw sub-phase for the draw variant, in
/// a betting round for community-card variants.
pub open spec fn hand_started(pre: Room, v: GameVariant, post: Room) -> bool {
    let n = pre.players@.len() as int;
    &&& post.phase is Acting
    &&& post.round == 1
    &&& post.game_variant == v
    &&& post.players@.len() == n
    &&& forall|i: int|
        0 <= i < n ==> seat_dealt(pre.players@[i], #[trigger] post.players@[i], v, pre.ante as int)
    &&& post.deck is Some
    &&& post.deck->Some_0.cards@.len() == 52 - cards_dealt(v, n)
    &&& deal_provenance(post.deck->Some_0.cards@, post.players@, post.community_cards@)
    &&& post.community_cards@.len() == spec_community_cards(v)
    &&& (forall|t: int|
        0 <= t < post.community_cards@.len() ==> (#[trigger] post.community_cards@[t]).face_up)
    &&& post.wealth() == pre.wealth()
    &&& ((forall|i: int| 0 <= i < n ==> (#[trigger] pre.players@[i]).chips >= pre.ante)
        ==> post.pot == pre.pot + n * pre.ante)
    &&& post.dealer_seat == pre.dealer_seat
    &&& post.in_betting == (spec_community_cards(v) > 0)
    &&& (!post.in_betting ==> {
        &&& post.draw_acted@.len() == n
        &&& (forall|i: int| 0 <= i < n ==> post.draw_acted@[i] == false)
        &&& post.to_act_seat == post.draw_started_seat
        &&& Some(post.to_act_seat as int) == scan_first(
            n,
            cyc(n, pre.dealer_seat as int, 1),
            n as nat,
            can_draw_pred(post.players@),
        )
    })
    &&& (post.in_betting ==> {
        &&& post.current_bet == 0
        &&& post.raises_made == 0
        &&& post.last_aggressor_seat is None
        &&& post.betting_acted@.len() == n
        &&& (forall|i: int| 0 <= i < n ==> post.betting_acted@[i] == false)
        &&& post.betting_started_seat == post.to_act_seat
        &&& Some(post.to_act_seat as int) == scan_first(
            n,
            cyc(n, pre.dealer_seat as int, 1),
            n as nat,
            alive_pred(post.players@),
        )
    })
    &&& post == (Room {
        players: post.players,
        deck: post.deck,
        community_cards: post.community_cards,
        elected_players: post.elected_players,
        pot: post.pot,
        phase: post.phase,
        round: post.round,
        in_betting: post.in_betting,
        game_variant: post.game_variant,
        draw_acted: post.draw_acted,
        draw_started_seat: post.draw_started_seat,
        betting_acted: post.betting_acted,
        betting_started_seat: post.betting_started_seat,
        to_act_seat: post.to_act_seat,
        current_bet: post.current_bet,
        raises_made: post.raises_made,
        last_aggressor_seat: post.last_aggressor_seat,
        ..pre
    })
}

/// Pops one card off the room's deck; the deck must be in play and hold one.
fn draw_from_deck(r: &mut Room, face_up: bool) -> (c: Card)
    requires
        old(r).deck is Some,
        old(r).deck->Some_0.cards@.len() > 0,
    ensures
        ({
            let deck0 = old(r).deck->Some_0.cards@;
            &&& c == (Card { rank: deck0.last().rank, suit: deck0.last().suit, face_up })
            &&& final(r).deck is Some
            &&& final(r).deck->Some_0.cards@ == deck0.drop_last()
            &&& *final(r) == (Room { deck: final(r).deck, ..*old(r) })
        }),
{
    let c = match &mut r.deck {
        Some(d) => d.draw(face_up),
        None => None,
    };
    match c {
        Some(c) => c,
        None => {
            assert(false);
            Card { rank: crate::cards::Rank::Two, suit: crate::cards::Suit::Clubs, face_up }
        },
    }
}

/// Deals one card off the top of the deck into seat `seat`'s up or down
/// cards, turned as asked, preserving the deal's provenance: the card moves
/// from the deck into the hand and nothing else changes.
fn deal_one(r: &mut Room, seat: usize, face_up: bool)
    requires
        old(r).deck is Some,
        old(r).deck->Some_0.cards@.len() > 0,
        forall|t: int|
            0 <= t < old(r).deck->Some_0.cards@.len() ==> !(#[trigger] old(r).deck->Some_0.cards@[t]).face_up,
        seat < old(r).players@.len(),
        deal_provenance(old(r).deck->Some_0.cards@, old(r).players@, old(r).community_cards@),
    ensures
        ({
            let deck0 = old(r).deck->Some_0.cards@;
            let c = (Card { rank: deck0.last().rank, suit: deck0.last().suit, face_up });
            let s0 = old(r).players@[seat as int];
            let s1 = final(r).players@[seat as int];
            &&& final(r).deck is Some
            &&& final(r).deck->Some_0.cards@ == deck0.drop_last()
            &&& final(r).players@ == old(r).players@.update(seat as int, s1)
            &&& (if face_up {
                s1 == (PlayerSeat { up_cards: s1.up_cards, ..s0 }) && s1.up_cards@
                    == s0.up_cards@.push(c)
            } else {
                s1 == (PlayerSeat { down_cards: s1.down_cards, ..s0 }) && s1.down_cards@
                    == s0.down_cards@.push(c)
            })
            &&& c.face_up == face_up
            &&& deal_provenance(
                final(r).deck->Some_0.cards@,
                final(r).players@,
                final(r).community_cards@,
            )
            &&& (forall|t: int|
                0 <= t < final(r).deck->Some_0.cards@.len() ==> !(#[trigger] final(r).deck->Some_0.cards@[t]).face_up)
            &&& *final(r) == (Room { players: final(r).players, deck: final(r).deck, ..*old(r) })
        }),
{
    let ghost pre = *r;
    let c = draw_from_deck(r, face_up);
    if face_up {
        let p = &mut r.players[seat];
        p.up_cards.push(c);
    } else {
        let p = &mut r.players[seat];
        p.down_cards.push(c);
    }
    proof {
        broadcast use vstd::multiset::group_multiset_axioms;
        broadcast use vstd::seq_lib::group_to_multiset_ensures;

        let n_ = pre.players@.len() as int;
        let deck0 = pre.deck->Some_0.cards@;
        let l = deck0.last();
        assert(!l.face_up);
        assert(card_face(c) == l);
        let s0 = pre.players@[seat as int];
        let s1 = r.players@[seat as int];
        assert(r.players@ == pre.players@.update(seat as int, s1));
        lemma_seat_gain(s0, s1, c);
        assert(seat_cards(r.players@, seat as int) == s1.up_cards@ + s1.down_cards@);
        assert(seat_cards(pre.players@, seat as int) == s0.up_cards@ + s0.down_cards@);
        lemma_hands_ms_gain(pre.players@, seat as int, s1, c, n_);
        assert(deck0.to_multiset().count(l) > 0) by {
            assert(deck0.contains(l));
        }
        lemma_ms_move(deck0.to_multiset(), hands_ms(pre.players@, n_), l);
        assert(r.deck->Some_0.cards@ =~= deck0.remove(deck0.len() - 1));
        assert(r.deck->Some_0.cards@.to_multiset() =~= deck0.to_multiset().remove(l));
        assert(r.deck->Some_0.cards@.to_multiset().add(hands_ms(r.players@, n_)).add(
            faces(r.community_cards@).to_multiset(),
        ) =~= full_deck().to_multiset());
    }
}

/// Deals one board card off the top of the deck, face up, preserving the
/// deal's provenance.
fn deal_flop_card(r: &mut Room)
    requires
        old(r).deck is Some,
        old(r).deck->Some_0.cards@.len() > 0,
        forall|t: int|
            0 <= t < old(r).deck->Some_0.cards@.len() ==> !(#[trigger] old(r).deck->Some_0.cards@[t]).face_up,
        deal_provenance(old(r).deck->Some_0.cards@, old(r).players@, old(r).community_cards@),
    ensures
        ({
            let deck0 = old(r).deck->Some_0.cards@;
            let c = (Card { rank: deck0.last().rank, suit: deck0.last().suit, face_up: true });
            &&& final(r).deck is Some
            &&& final(r).deck->Some_0.cards@ == deck0.drop_last()
            &&& final(r).community_cards@ == old(r).community_cards@.push(c)
            &&& deal_provenance(
                final(r).deck->Some_0.cards@,
                final(r).players@,
                final(r).community_cards@,
            )
            &&& (forall|t: int|
                0 <= t < final(r).deck->Some_0.cards@.len() ==> !(#[trigger] final(r).deck->Some_0.cards@[t]).face_up)
            &&& *final(r) == (Room {
                deck: final(r).deck,
                community_cards: final(r).community_cards,
                ..*old(r)
            })
        }),
{
    let ghost pre = *r;
    let c = draw_from_deck(r, true);
    r.community_cards.push(c);
    proof {
        broadcast use vstd::multiset::group_multiset_axioms;
        broadcast use vstd::seq_lib::group_to_multiset_ensures;

        let n_ = pre.players@.len() as int;
        let deck0 = pre.deck->Some_0.cards@;
        let l = deck0.last();
        assert(!l.face_up);
        assert(card_face(c) == l);
        lemma_faces_push(pre.community_cards@, c);
        assert(deck0.to_multiset().count(l) > 0) by {
            assert(deck0.contains(l));
        }
        lemma_ms_move(deck0.to_multiset(), faces(pre.community_cards@).to_multiset(), l);
        assert(r.deck->Some_0.cards@ =~= deck0.remove(deck0.len() - 1));
        assert(r.deck->Some_0.cards@.to_multiset() =~= deck0.to_multiset().remove(l));
        assert(r.deck->Some_0.cards@.to_multiset().add(hands_ms(r.players@, n_)).add(
            faces(r.community_cards@).to_multiset(),
        ) =~= full_deck().to_multiset());
    }
}

/// Resets every seat for a new hand and collects each seat's ante into the
/// pot through the commit primitive.
fn reset_seats_and_collect_ante(r: &mut Room)
    requires
        old(r).seats_ok(),
        old(r).money_ok(),
    ensures
        ({
            let pre = *old(r);
            let post = *final(r);
            let n = pre.players@.len() as int;
            &&& post.players@.len() == n
            &&& forall|i: int|
                0 <= i < n ==> {
                    let s0 = pre.players@[i];
                    let pay: int = if pre.ante <= s0.chips {
                        pre.ante as int
                    } else {
                        s0.chips as int
                    };
                    let s1 = #[trigger] post.players@[i];
                    &&& s1.id == s0.id
                    &&& s1.name == s0.name
                    &&& s1.folded == false
                    &&& s1.standing == false
                    &&& s1.ready == false
                    &&& s1.chips == s0.chips - pay
                    &&& s1.committed_round == pay
                    &&& s1.up_cards@.len() == 0
                    &&& s1.down_cards@.len() == 0
                }
            &&& post.pot == pre.pot + committed_sum(post.players@)
            &&& ((forall|i: int| 0 <= i < n ==> (#[trigger] pre.players@[i]).chips >= pre.ante)
                ==> post.pot == pre.pot + n * pre.ante)
            &&& post.wealth() == pre.wealth()
            &&& post.money_ok()
            &&& post == (Room { players: post.players, pot: post.pot, ..pre })
        }),
{
    let ghost pre = *r;
    let n = r.players.len();
    let ghost mid = *r;
    let mut i: usize = 0;
    while i < n
        invariant
            n == r.players@.len(),
            pre.players@.len() == n,
            i <= n,
            forall|j: int|
                0 <= j < i ==> {
                    let s0 = pre.players@[j];
                    let s1 = #[trigger] r.players@[j];
                    &&& s1.id == s0.id
                    &&& s1.name == s0.name
                    &&& s1.chips == s0.chips
                    &&& s1.folded == false
                    &&& s1.standing == false
                    &&& s1.ready == false
                    &&& s1.committed_round == 0
                    &&& s1.up_cards@.len() == 0
                    &&& s1.down_cards@.len() == 0
                },
            forall|j: int| i <= j < n ==> r.players@[j] == pre.players@[j],
            *r == (Room { players: r.players, ..pre }),
        decreases n - i,
    {
        let p = &mut r.players[i];
        p.folded = false;
        p.standing = false;
        p.up_cards = Vec::new();
        p.down_cards = Vec::new();
        p.ready = false;
        p.committed_round = 0;
        i = i + 1;
    }
    proof {
        lemma_chips_pointwise(pre.players@, r.players@);
        lemma_committed_zero(r.players@);
    }
    let ghost cleared = *r;

    let ante = r.ante;
    let mut k: usize = 0;
    while k < n
        invariant
            n == r.players@.len(),
            cleared.players@.len() == n,
            pre.players@.len() == n,
            k <= n,
            r.ante == pre.ante,
            ante == pre.ante,
            forall|j: int|
                0 <= j < n ==> {
                    let s0 = pre.players@[j];
                    let sc = #[trigger] cleared.players@[j];
                    &&& sc.id == s0.id
                    &&& sc.name == s0.name
                    &&& sc.chips == s0.chips
                    &&& sc.folded == false
                    &&& sc.standing == false
                    &&& sc.ready == false
                    &&& sc.committed_round == 0
                    &&& sc.up_cards@.len() == 0
                    &&& sc.down_cards@.len() == 0
                },
            forall|j: int|
                0 <= j < k ==> {
                    let sc = cleared.players@[j];
                    let pay: int = if ante <= sc.chips {
                        ante as int
                    } else {
                        sc.chips as int
                    };
                    #[trigger] r.players@[j] == (PlayerSeat {
                        chips: (sc.chips - pay) as u64,
                        committed_round: pay as u64,
                        ..sc
                    })
                },
            forall|j: int| k <= j < n ==> r.players@[j] == cleared.players@[j],
            r.pot == cleared.pot + committed_sum(r.players@),
            ((forall|j: int| 0 <= j < k ==> (#[trigger] cleared.players@[j]).chips >= ante)
                ==> r.pot == cleared.pot + k * ante),
            r.wealth() == cleared.wealth(),
            r.money_ok(),
            *r == (Room { players: r.players, pot: r.pot, ..cleared }),
        decreases n - k,
    {
        let ghost pot0 = r.pot;
        commit(r, k, ante);
        proof {
            if forall|j: int|
                0 <= j < k + 1 ==> (#[trigger] cleared.players@[j]).chips >= ante {
                assert(forall|j: int|
                    0 <= j < k ==> (#[trigger] cleared.players@[j]).chips >= ante);
                assert(pot0 == cleared.pot + k * ante);
                assert(cleared.players@[k as int].chips >= ante);
                assert(r.pot == pot0 + ante);
                assert((k + 1) * ante == k * ante + ante) by (nonlinear_arith);
            }
        }
        k = k + 1;
    }
}

} // verus!

verus! {

/// A fresh per-seat flag vector, one entry per seat.
fn bool_vec(n: usize, val: bool) -> (v: Vec<bool>)
    ensures
        v@.len() == n,
        forall|i: int| 0 <= i < n ==> v@[i] == val,
{
    let mut v: Vec<bool> = Vec::new();
    let mut k: usize = 0;
    while k < n
        invariant
            k <= n,
            v@.len() == k,
            forall|i: int| 0 <= i < k ==> v@[i] == val,
        decreases n - k,
    {
        v.push(val);
        k = k + 1;
    }
    v
}

/// Deals a new hand of the room's current variant: resets the seats,
/// collects antes, draws each seat's initial cards from a fresh shuffled
/// deck (plus the flop for community variants), and opens the acting phase.
pub(crate) fn deal_hand(r: &mut Room)
    requires
        old(r).wf(),
        old(r).players@.len() >= 1,
    ensures
        hand_started(*old(r), old(r).game_variant, *final(r)),
        final(r).elected_players == old(r).elected_players,
        final(r).wf(),
{
    let ghost pre = *r;
    r.phase = Phase::Dealing;
    reset_seats_and_collect_ante(r);
    r.deck = Some(Deck::standard_shuffled());
    r.community_cards = Vec::new();
    let ghost base = *r;
    let n = r.players.len();
    assert(n <= 7);
    proof {
        broadcast use vstd::multiset::group_multiset_axioms;

        lemma_hands_ms_zero(base.players@, base.players@.len() as int);
        lemma_no_cards_multiset(faces(base.community_cards@));
        lemma_full_deck_faces(base.deck->Some_0.cards@);
        assert(deal_provenance(base.deck->Some_0.cards@, base.players@, base.community_cards@));
    }

    if matches!(r.game_variant, GameVariant::SevenTwentySeven) {
        let mut i: usize = 0;
        while i < n
            invariant
                n == r.players@.len(),
                base.players@.len() == n,
                n <= 7,
                i <= n,
                r.deck is Some,
                r.deck->Some_0.cards@.len() == 52 - 2 * i,
                forall|t: int|
                    0 <= t < r.deck->Some_0.cards@.len() ==> !(#[trigger] r.deck->Some_0.cards@[t]).face_up,
                deal_provenance(r.deck->Some_0.cards@, r.players@, r.community_cards@),
                forall|j: int|
                    0 <= j < n ==> (#[trigger] base.players@[j]).up_cards@.len() == 0
                        && base.players@[j].down_cards@.len() == 0,
                forall|j: int|
                    0 <= j < i ==> {
                        let sb = base.players@[j];
                        let s1 = #[trigger] r.players@[j];
                        &&& s1 == (PlayerSeat { up_cards: s1.up_cards, down_cards: s1.down_cards, ..sb })
                        &&& s1.up_cards@.len() == 1
                        &&& s1.down_cards@.len() == 1
                        &&& s1.up_cards@[0].face_up
                        &&& !s1.down_cards@[0].face_up
                    },
                forall|j: int| i <= j < n ==> r.players@[j] == base.players@[j],
                *r == (Room { players: r.players, deck: r.deck, ..base }),
            decreases n - i,
        {
            deal_one(r, i, true);
            deal_one(r, i, false);
            i = i + 1;
        }
        r.phase = Phase::Acting;
        r.round = 1;
        r.in_betting = false;
        r.draw_acted = bool_vec(n, false);
        r.betting_acted = bool_vec(n, false);
        proof {
            assert(r.seat_alive(0) && !r.players@[0].standing);
            lemma_chips_pointwise(base.players@, r.players@);
        }
        let start = next_drawer_left_of(r, r.dealer_seat);
        r.draw_started_seat = start;
        r.to_act_seat = start;
        proof {
            lemma_chips_pointwise(base.players@, r.players@);
            lemma_committed_pointwise(base.players@, r.players@);
            assert(hand_started(pre, pre.game_variant, *r));
        }
    } else {
        let hc = r.game_variant.hole_cards();
        assert(hc == 4 || hc == 2);
        let mut i: usize = 0;
        while i < n
            invariant
                n == r.players@.len(),
                base.players@.len() == n,
                n <= 7,
                i <= n,
                hc == spec_hole_cards(base.game_variant),
                (hc == 4 || hc == 2),
                r.game_variant == base.game_variant,
                r.deck is Some,
                r.deck->Some_0.cards@.len() == 52 - i * hc,
                forall|t: int|
                    0 <= t < r.deck->Some_0.cards@.len() ==> !(#[trigger] r.deck->Some_0.cards@[t]).face_up,
                deal_provenance(r.deck->Some_0.cards@, r.players@, r.community_cards@),
                forall|j: int|
                    0 <= j < n ==> (#[trigger] base.players@[j]).up_cards@.len() == 0
                        && base.players@[j].down_cards@.len() == 0,
                forall|j: int|
                    0 <= j < i ==> {
                        let sb = base.players@[j];
                        let s1 = #[trigger] r.players@[j];
                        &&& s1 == (PlayerSeat { down_cards: s1.down_cards, ..sb })
                        &&& s1.down_cards@.len() == hc
                        &&& (forall|t: int|
                            0 <= t < s1.down_cards@.len() ==> !(#[trigger] s1.down_cards@[t]).face_up)
                    },
                forall|j: int| i <= j < n ==> r.players@[j] == base.players@[j],
                *r == (Room { players: r.players, deck: r.deck, ..base }),
            decreases n - i,
        {
            proof {
                assert((i + 1) * hc == i * hc + hc) by (nonlinear_arith);
                assert(i * hc <= 6 * 4) by (nonlinear_arith)
                    requires
                        0 <= i <= 6,
                        0 <= hc <= 4,
                ;
            }
            let mut t: usize = 0;
            let ghost stage = *r;
            proof {
                assert(forall|j: int|
                    0 <= j < i ==> {
                        let sb = base.players@[j];
                        let s1 = #[trigger] stage.players@[j];
                        &&& s1 == (PlayerSeat { down_cards: s1.down_cards, ..sb })
                        &&& s1.down_cards@.len() == hc
                        &&& (forall|t: int|
                            0 <= t < s1.down_cards@.len() ==> !(
                            #[trigger] s1.down_cards@[t]).face_up)
                    });
            }
            while t < hc
                invariant
                    n == r.players@.len(),
                    stage.players@.len() == n,
                    i < n,
                    t <= hc,
                    hc <= 4,
                    r.deck is Some,
                    stage.deck is Some,
                    stage.deck->Some_0.cards@.len() >= hc,
                    r.deck->Some_0.cards@.len() == stage.deck->Some_0.cards@.len() - t,
                    forall|u: int|
                        0 <= u < r.deck->Some_0.cards@.len() ==> !(
                        #[trigger] r.deck->Some_0.cards@[u]).face_up,
                    deal_provenance(r.deck->Some_0.cards@, r.players@, r.community_cards@),
                    r.players@[i as int] == (PlayerSeat {
                        down_cards: r.players@[i as int].down_cards,
                        ..stage.players@[i as int]
                    }),
                    r.players@[i as int].down_cards@.len() == stage.players@[i as int].down_cards@.len()
                        + t,
                    forall|u: int|
                        0 <= u < r.players@[i as int].down_cards@.len() ==> !(
                        #[trigger] r.players@[i as int].down_cards@[u]).face_up,
                    forall|j: int|
                        0 <= j < n && j != i ==> r.players@[j] == stage.players@[j],
                    *r == (Room { players: r.players, deck: r.deck, ..stage }),
                decreases hc - t,
            {
                deal_one(r, i, false);
                t = t + 1;
            }
            proof {
                assert(stage.players@[i as int] == base.players@[i as int]);
                assert forall|j: int|
                    0 <= j < i + 1 implies {
                        let sb = base.players@[j];
                        let s1 = #[trigger] r.players@[j];
                        &&& s1 == (PlayerSeat { down_cards: s1.down_cards, ..sb })
                        &&& s1.down_cards@.len() == hc
                        &&& (forall|t: int|
                            0 <= t < s1.down_cards@.len() ==> !(
                            #[trigger] s1.down_cards@[t]).face_up)
                    } by {
                    if j < i {
                        assert(r.players@[j] == stage.players@[j]);
                        assert(stage.players@[j] == (PlayerSeat {
                            down_cards: stage.players@[j].down_cards,
                            ..base.players@[j]
                        }));
                    }
                }
            }
            i = i + 1;
        }
        proof {
            assert(n * hc <= 28) by (nonlinear_arith)
                requires
                    0 <= n <= 7,
                    0 <= hc <= 4,
            ;
        }
        let mut t: usize = 0;
        let ghost dealt = *r;
        while t < 3
            invariant
                t <= 3,
                r.deck is Some,
                dealt.deck is Some,
                dealt.deck->Some_0.cards@.len() >= 3,
                r.deck->Some_0.cards@.len() == dealt.deck->Some_0.cards@.len() - t,
                forall|u: int|
                    0 <= u < r.deck->Some_0.cards@.len() ==> !(
                    #[trigger] r.deck->Some_0.cards@[u]).face_up,
                deal_provenance(r.deck->Some_0.cards@, r.players@, r.community_cards@),
                r.community_cards@.len() == dealt.community_cards@.len() + t,
                dealt.community_cards@.len() == 0,
                forall|u: int|
                    0 <= u < r.community_cards@.len() ==> (
                    #[trigger] r.community_cards@[u]).face_up,
                *r == (Room {
                    deck: r.deck,
                    community_cards: r.community_cards,
                    ..dealt
                }),
            decreases 3 - t,
        {
            deal_flop_card(r);
            t = t + 1;
        }
        r.phase = Phase::Acting;
        r.round = 1;
        r.draw_acted = bool_vec(n, true);
        proof {
            assert(r.seat_alive(0));
            lemma_chips_pointwise(base.players@, r.players@);
            lemma_committed_pointwise(base.players@, r.players@);
            assert(r.money_ok());
        }
        let ghost before_betting = *r;
        start_betting_round(r);
        proof {
            crate::turn::lemma_scan_equiv(
                n as int,
                cyc(n as int, pre.dealer_seat as int, 1),
                n as nat,
                alive_pred(before_betting.players@),
                alive_pred(r.players@),
            );
            lemma_chips_pointwise(base.players@, before_betting.players@);
            lemma_committed_zero(r.players@);
            vstd::arithmetic::mul::lemma_mul_is_commutative(n as int, hc as int);
            assert(forall|j: int|
                0 <= j < n ==> (#[trigger] r.players@[j]).up_cards@ == before_betting.players@[j].up_cards@
                    && r.players@[j].down_cards@ == before_betting.players@[j].down_cards@);
            lemma_hands_ms_congruent(r.players@, before_betting.players@, n as int);
            assert(deal_provenance(r.deck->Some_0.cards@, r.players@, r.community_cards@));
            let v = pre.game_variant;
            let nn = pre.players@.len() as int;
            assert(r.deck->Some_0.cards@.len() == 52 - cards_dealt(v, nn));
            assert(forall|i: int|
                0 <= i < nn ==> seat_dealt(
                    pre.players@[i],
                    #[trigger] r.players@[i],
                    v,
                    pre.ante as int,
                ));
            assert(r.wealth() == pre.wealth());
            assert(((forall|i: int|
                0 <= i < nn ==> (#[trigger] pre.players@[i]).chips >= pre.ante) ==> r.pot
                == pre.pot + nn * pre.ante));
            assert(forall|i: int| 0 <= i < nn ==> r.betting_acted@[i] == false);
            assert(Some(r.to_act_seat as int) == scan_first(
                nn,
                cyc(nn, pre.dealer_seat as int, 1),
                nn as nat,
                alive_pred(r.players@),
            ));
            assert(*r == (Room {
                players: r.players,
                deck: r.deck,
                community_cards: r.community_cards,
                elected_players: r.elected_players,
                pot: r.pot,
                phase: r.phase,
                round: r.round,
                in_betting: r.in_betting,
                game_variant: r.game_variant,
                draw_acted: r.draw_acted,
                draw_started_seat: r.draw_started_seat,
                betting_acted: r.betting_acted,
                betting_started_seat: r.betting_started_seat,
                to_act_seat: r.to_act_seat,
                current_bet: r.current_bet,
                raises_made: r.raises_made,
                last_aggressor_seat: r.last_aggressor_seat,
                ..pre
            }));
            assert(hand_started(pre, pre.game_variant, *r));
        }
    }
}

/// Two seat lists agreeing pointwise on round commitments have the same
/// committed sum.
pub proof fn lemma_committed_pointwise(a: Seq<PlayerSeat>, b: Seq<PlayerSeat>)
    requires
        a.len() == b.len(),
        forall|i: int| 0 <= i < a.len() ==> a[i].committed_round == b[i].committed_round,
    ensures
        committed_sum(a) == committed_sum(b),
    decreases a.len(),
{
    if a.len() > 0 {
        lemma_committed_pointwise(a.drop_last(), b.drop_last());
    }
}

} // verus!

verus! {

/// Why a start-hand intent would be rejected, or nothing when it may
/// proceed: the caller must be seated, the room in its lobby, at least two
/// players seated and every one of them ready.
pub open spec fn start_rejection(r: Room, id: u128) -> Option<ActionError> {
    match seat_index(r.players@, id) {
        None => Some(ActionError::NotSeated),
        Some(_) => if !(r.phase is Lobby) {
            Some(ActionError::WrongPhase)
        } else if r.players@.len() < 2 {
            Some(ActionError::NeedTwoPlayers)
        } else if exists|i: int| 0 <= i < r.players@.len() && !(#[trigger] r.players@[i]).ready {
            Some(ActionError::NotAllReady)
        } else {
            None
        },
    }
}

/// Starts a hand on a seated caller's request, once the lobby holds at least
/// two players and every seated player is ready.
pub fn start_hand(r: &mut Room, id: u128) -> (res: Result<(), ActionError>)
    requires
        old(r).wf(),
    ensures
        final(r).wf(),
        (res is Err) == (start_rejection(*old(r), id) is Some),
        res is Err ==> res->Err_0 == start_rejection(*old(r), id)->Some_0 && *final(r) == *old(r),
        res is Ok ==> hand_started(*old(r), old(r).game_variant, *final(r)) && final(r).elected_players == old(r).elected_players,
        res is Ok && old(r).pot == 0 && (forall|i: int|
            0 <= i < old(r).players@.len() ==> (#[trigger] old(r).players@[i]).chips >= old(r).ante) ==> final(r).pot as int == old(r).players@.len() * old(r).ante,
        final(r).wealth() == old(r).wealth(),
{
    match seat_of(r, id) {
        Some(_) => (),
        None => {
            return Err(ActionError::NotSeated);
        },
    };
    if !matches!(r.phase, Phase::Lobby) {
        return Err(ActionError::WrongPhase);
    }
    if r.players.len() < 2 {
        return Err(ActionError::NeedTwoPlayers);
    }
    let mut all_ready = true;
    let mut i: usize = 0;
    let n = r.players.len();
    while i < n
        invariant
            n == r.players@.len(),
            *r == *old(r),
            i <= n,
            all_ready == (forall|j: int| 0 <= j < i ==> (#[trigger] r.players@[j]).ready),
        decreases n - i,
    {
        if !r.players[i].ready {
            all_ready = false;
        }
        i = i + 1;
    }
    if !all_ready {
        return Err(ActionError::NotAllReady);
    }
    deal_hand(r);
    Ok(())
}

/// Marks the caller ready; when that makes everyone in a lobby of at least
/// two players ready, the hand starts at once. The result reports whether it
/// did.
pub fn sit_ready(r: &mut Room, id: u128) -> (res: Result<bool, ActionError>)
    requires
        old(r).wf(),
    ensures
        final(r).wf(),
        (res is Err) == (seat_index(old(r).players@, id) is None),
        res is Err ==> res->Err_0 == ActionError::NotSeated && *final(r) == *old(r),
        res is Ok ==> ({
            let seat = seat_index(old(r).players@, id)->Some_0;
            let players1 = old(r).players@.update(
                seat,
                (PlayerSeat { ready: true, ..old(r).players@[seat] }),
            );
            let starts = old(r).phase is Lobby && old(r).players@.len() >= 2 && (forall|i: int|
                0 <= i < players1.len() ==> (#[trigger] players1[i]).ready);
            &&& res->Ok_0 == starts
            &&& (starts ==> hand_started(*old(r), old(r).game_variant, *final(r)) && final(r).elected_players == old(r).elected_players)
            &&& (!starts ==> final(r).players@ == players1 && *final(r) == (Room {
                players: final(r).players,
                ..*old(r)
            }))
        }),
        final(r).wealth() == old(r).wealth(),
{
    let seat = match seat_of(r, id) {
        Some(s) => s,
        None => {
            return Err(ActionError::NotSeated);
        },
    };
    let ghost pre = *r;
    let p = &mut r.players[seat];
    p.ready = true;
    assert(r.players@ == pre.players@.update(
        seat as int,
        (PlayerSeat { ready: true, ..pre.players@[seat as int] }),
    ));
    proof {
        lemma_sum_update(
            pre.players@,
            seat as int,
            (PlayerSeat { ready: true, ..pre.players@[seat as int] }),
        );
    }

    let mut all_ready = true;
    let n = r.players.len();
    let mut i: usize = 0;
    while i < n
        invariant
            n == r.players@.len(),
            *r == (Room { players: r.players, ..pre }),
            r.players@ == pre.players@.update(
                seat as int,
                (PlayerSeat { ready: true, ..pre.players@[seat as int] }),
            ),
            i <= n,
            all_ready == (forall|j: int| 0 <= j < i ==> (#[trigger] r.players@[j]).ready),
        decreases n - i,
    {
        if !r.players[i].ready {
            all_ready = false;
        }
        i = i + 1;
    }
    let starts = matches!(r.phase, Phase::Lobby) && n >= 2 && all_ready;
    if starts {
        deal_hand(r);
        Ok(true)
    } else {
        Ok(false)
    }
}

/// Seats a new player with the starting stack. While a hand is acting, the
/// new seat is pre-marked acted for the current sub-phase, so it first plays
/// in the next round.
pub fn add_player(r: &mut Room, id: u128, name: String) -> (seat: usize)
    requires
        old(r).wf(),
        old(r).players@.len() < MAX_PLAYERS,
        old(r).wealth() + STARTING_CHIPS <= u64::MAX,
    ensures
        final(r).wf(),
        seat == old(r).players@.len(),
        final(r).players@.len() == old(r).players@.len() + 1,
        final(r).players@[seat as int] == (PlayerSeat {
            id,
            name,
            chips: STARTING_CHIPS,
            folded: false,
            standing: false,
            up_cards: final(r).players@[seat as int].up_cards,
            down_cards: final(r).players@[seat as int].down_cards,
            ready: false,
            committed_round: 0,
        }),
        final(r).players@[seat as int].up_cards@.len() == 0,
        final(r).players@[seat as int].down_cards@.len() == 0,
        forall|j: int| 0 <= j < seat ==> final(r).players@[j] == old(r).players@[j],
        final(r).wealth() == old(r).wealth() + STARTING_CHIPS,
        old(r).phase is Acting ==> final(r).draw_acted@ == old(r).draw_acted@.push(true) && final(r).betting_acted@ == old(r).betting_acted@.push(true),
        !(old(r).phase is Acting) ==> final(r).draw_acted == old(r).draw_acted && final(r).betting_acted == old(r).betting_acted,
        *final(r) == (Room {
            players: final(r).players,
            draw_acted: final(r).draw_acted,
            betting_acted: final(r).betting_acted,
            ..*old(r)
        }),
{
    let ghost pre = *r;
    let seat = r.players.len();
    r.players.push(
        PlayerSeat {
            id,
            name,
            chips: STARTING_CHIPS,
            folded: false,
            standing: false,
            up_cards: Vec::new(),
            down_cards: Vec::new(),
            ready: false,
            committed_round: 0,
        },
    );
    proof {
        lemma_sum_push(pre.players@, r.players@[seat as int]);
        assert(forall|j: int| 0 <= j < seat ==> r.players@[j] == pre.players@[j]);
    }
    if matches!(r.phase, Phase::Acting) {
        r.draw_acted.push(true);
        r.betting_acted.push(true);
    }
    proof {
        assert(forall|j: int|
            0 <= j < pre.players@.len() ==> r.players@[j] == pre.players@[j]);
        if r.phase is Acting {
            assert(r.turn_ok());
            assert(r.betting_ok());
        }
        assert(r.cards_ok());
        assert(r.money_ok());
    }
    seat
}

/// Admits a non-playing observer: spectators see public snapshots only and
/// never touch the game state.
pub fn join_as_spectator(r: &mut Room, id: u128, name: String)
    requires
        old(r).wf(),
    ensures
        final(r).wf(),
        final(r).spectators@ == old(r).spectators@.push(Spectator { id, name }),
        *final(r) == (Room { spectators: final(r).spectators, ..*old(r) }),
{
    r.spectators.push(Spectator { id, name });
}

/// Whether a player joins a seat or, at a full table, the spectator rail.
#[derive(Debug, PartialEq, Eq, Structural)]
pub enum JoinOutcome {
    /// Seated at the returned stable seat index.
    Seated(usize),
    /// The table is full; admitted as a spectator instead.
    Spectating,
}

/// Admits a player to the room: seated with the starting stack while the
/// table has room, as a spectator once it is full.
pub fn join_room(r: &mut Room, id: u128, name: String) -> (out: JoinOutcome)
    requires
        old(r).wf(),
        old(r).wealth() + STARTING_CHIPS <= u64::MAX,
    ensures
        final(r).wf(),
        old(r).players@.len() < MAX_PLAYERS ==> {
            let seat = old(r).players@.len() as int;
            &&& out == JoinOutcome::Seated((old(r).players@.len() as usize))
            &&& final(r).players@.len() == old(r).players@.len() + 1
            &&& final(r).players@[seat] == (PlayerSeat {
                id,
                name,
                chips: STARTING_CHIPS,
                folded: false,
                standing: false,
                up_cards: final(r).players@[seat].up_cards,
                down_cards: final(r).players@[seat].down_cards,
                ready: false,
                committed_round: 0,
            })
            &&& final(r).players@[seat].up_cards@.len() == 0
            &&& final(r).players@[seat].down_cards@.len() == 0
            &&& (forall|j: int| 0 <= j < seat ==> final(r).players@[j] == old(r).players@[j])
            &&& (old(r).phase is Acting ==> final(r).draw_acted@ == old(r).draw_acted@.push(true)
                && final(r).betting_acted@ == old(r).betting_acted@.push(true))
            &&& (!(old(r).phase is Acting) ==> final(r).draw_acted == old(r).draw_acted && final(r).betting_acted == old(r).betting_acted)
            &&& *final(r) == (Room {
                players: final(r).players,
                draw_acted: final(r).draw_acted,
                betting_acted: final(r).betting_acted,
                ..*old(r)
            })
        },
        old(r).players@.len() >= MAX_PLAYERS ==> {
            &&& out == JoinOutcome::Spectating
            &&& final(r).spectators@ == old(r).spectators@.push(Spectator { id, name })
            &&& *final(r) == (Room { spectators: final(r).spectators, ..*old(r) })
        },
{
    if r.players.len() >= MAX_PLAYERS {
        join_as_spectator(r, id, name);
        return JoinOutcome::Spectating;
    }
    let seat = add_player(r, id, name);
    JoinOutcome::Seated(seat)
}

/// Removes a spectator on disconnect: every entry with the leaving identity
/// goes, every other entry stays in order. Idempotent.
pub fn remove_spectator(r: &mut Room, id: u128)
    requires
        old(r).wf(),
    ensures
        final(r).wf(),
        final(r).spectators@ == old(r).spectators@.filter(|s: Spectator| s.id != id),
        *final(r) == (Room { spectators: final(r).spectators, ..*old(r) }),
{
    let ghost pred = |s: Spectator| s.id != id;
    let mut keep: Vec<Spectator> = Vec::new();
    proof {
        reveal(Seq::filter);
        assert(keep@ == r.spectators@.take(0).filter(pred));
    }
    let n = r.spectators.len();
    let mut i: usize = 0;
    while i < n
        invariant
            n == r.spectators@.len(),
            i <= n,
            *r == *old(r),
            pred == (|s: Spectator| s.id != id),
            keep@ == r.spectators@.take(i as int).filter(pred),
        decreases n - i,
    {
        proof {
            assert(r.spectators@.take(i + 1).drop_last() =~= r.spectators@.take(i as int));
            assert(r.spectators@.take(i + 1).last() == r.spectators@[i as int]);
        }
        if r.spectators[i].id != id {
            let s = &r.spectators[i];
            keep.push(Spectator { id: s.id, name: s.name.clone() });
            proof {
                let full = r.spectators@.take(i + 1);
                reveal(Seq::filter);
                assert(keep@.last() == r.spectators@[i as int]);
                assert(pred(full.last()));
                assert(full.filter(pred) == full.drop_last().filter(pred).push(full.last()));
                assert(keep@ =~= full.filter(pred));
            }
        } else {
            proof {
                let full = r.spectators@.take(i + 1);
                reveal(Seq::filter);
                assert(!pred(full.last()));
                assert(full.filter(pred) == full.drop_last().filter(pred));
                assert(keep@ =~= full.filter(pred));
            }
        }
        i = i + 1;
    }
    proof {
        reveal(Seq::filter);
        assert(r.spectators@.take(n as int) =~= r.spectators@);
    }
    r.spectators = keep;
}

/// Why a leave would be rejected: seats cannot be compacted while a hand is
/// being dealt, acted or shown down.
pub open spec fn leave_rejection(r: Room, id: u128) -> Option<ActionError> {
    if r.phase is Dealing || r.phase is Acting || r.phase is Showdown {
        Some(ActionError::HandInPlay)
    } else {
        match seat_index(r.players@, id) {
            None => Some(ActionError::NotSeated),
            Some(_) => None,
        }
    }
}

/// Removes a seated player between hands, compacting the seat list and
/// keeping the dealer cursor within it.
pub fn remove_player(r: &mut Room, id: u128) -> (res: Result<(), ActionError>)
    requires
        old(r).wf(),
    ensures
        final(r).wf(),
        (res is Err) == (leave_rejection(*old(r), id) is Some),
        res is Err ==> res->Err_0 == leave_rejection(*old(r), id)->Some_0 && *final(r) == *old(r),
        res is Ok ==> ({
            let seat = seat_index(old(r).players@, id)->Some_0;
            &&& final(r).players@ == old(r).players@.remove(seat)
            &&& final(r).dealer_seat as int == (if (old(r).dealer_seat as int) < old(r).players@.len() - 1 {
                old(r).dealer_seat as int
            } else {
                0int
            })
            &&& *final(r) == (Room {
                players: final(r).players,
                dealer_seat: final(r).dealer_seat,
                ..*old(r)
            })
        }),
{
    if matches!(r.phase, Phase::Dealing) || matches!(r.phase, Phase::Acting) || matches!(
        r.phase,
        Phase::Showdown,
    ) {
        return Err(ActionError::HandInPlay);
    }
    let seat = match seat_of(r, id) {
        Some(s) => s,
        None => {
            return Err(ActionError::NotSeated);
        },
    };
    let ghost pre = *r;
    r.players.remove(seat);
    proof {
        lemma_sum_remove(pre.players@, seat as int);
        lemma_sums_nonneg(pre.players@);
        lemma_sum_element(pre.players@, seat as int);
    }
    if r.players.len() == 0 {
        r.dealer_seat = 0;
    } else if r.dealer_seat >= r.players.len() {
        r.dealer_seat = 0;
    }
    Ok(())
}

/// Why an election to start would be rejected: elections are taken in the
/// lobby and while the room waits for a dealer between hands.
pub open spec fn elect_rejection(r: Room, id: u128) -> Option<ActionError> {
    match seat_index(r.players@, id) {
        None => Some(ActionError::NotSeated),
        Some(_) => if r.players@.len() < 4 {
            Some(ActionError::NeedFourPlayers)
        } else if !(r.phase is Lobby || r.phase is WaitingForDealer) {
            Some(ActionError::WrongPhase)
        } else {
            None
        },
    }
}

/// Records the caller's election to start; once every seated player has
/// elected, the room moves to dealer selection. The result reports whether
/// it did.
pub fn handle_elect_to_start(r: &mut Room, id: u128) -> (res: Result<bool, ActionError>)
    requires
        old(r).wf(),
    ensures
        final(r).wf(),
        (res is Err) == (elect_rejection(*old(r), id) is Some),
        res is Err ==> res->Err_0 == elect_rejection(*old(r), id)->Some_0 && *final(r) == *old(r),
        res is Ok ==> ({
            let elected1 = if old(r).elected_players@.contains(id) {
                old(r).elected_players@
            } else {
                old(r).elected_players@.push(id)
            };
            &&& final(r).elected_players@ == elected1
            &&& res->Ok_0 == (elected1.len() == old(r).players@.len())
            &&& final(r).phase == (if elected1.len() == old(r).players@.len() {
                Phase::DealerSelection
            } else {
                old(r).phase
            })
            &&& *final(r) == (Room {
                elected_players: final(r).elected_players,
                phase: final(r).phase,
                ..*old(r)
            })
        }),
{
    match seat_of(r, id) {
        Some(_) => (),
        None => {
            return Err(ActionError::NotSeated);
        },
    };
    if r.players.len() < 4 {
        return Err(ActionError::NeedFourPlayers);
    }
    if !matches!(r.phase, Phase::Lobby) && !matches!(r.phase, Phase::WaitingForDealer) {
        return Err(ActionError::WrongPhase);
    }
    let mut present = false;
    let n = r.elected_players.len();
    let mut i: usize = 0;
    while i < n
        invariant
            n == r.elected_players@.len(),
            i <= n,
            *r == *old(r),
            present == (exists|j: int| 0 <= j < i && old(r).elected_players@[j] == id),
        decreases n - i,
    {
        if r.elected_players[i] == id {
            present = true;
        }
        i = i + 1;
    }
    proof {
        if present {
            assert(old(r).elected_players@.contains(id));
        } else {
            assert(!old(r).elected_players@.contains(id));
        }
    }
    if !present {
        r.elected_players.push(id);
    }
    let moved = r.elected_players.len() == r.players.len();
    if moved {
        r.phase = Phase::DealerSelection;
    }
    Ok(moved)
}

/// Why a dealer delegation would be rejected.
pub open spec fn delegate_rejection(r: Room, id: u128, dealer_id: u128) -> Option<ActionError> {
    match seat_index(r.players@, id) {
        None => Some(ActionError::NotSeated),
        Some(_) => if !(r.phase is DealerSelection) {
            Some(ActionError::WrongPhase)
        } else {
            match seat_index(r.players@, dealer_id) {
                None => Some(ActionError::DealerNotSeated),
                Some(_) => None,
            }
        },
    }
}

/// Delegates a seated player as dealer during dealer selection and moves the
/// room to game selection.
pub fn handle_delegate_dealer(r: &mut Room, id: u128, dealer_id: u128) -> (res: Result<
    (),
    ActionError,
>)
    requires
        old(r).wf(),
    ensures
        final(r).wf(),
        (res is Err) == (delegate_rejection(*old(r), id, dealer_id) is Some),
        res is Err ==> res->Err_0 == delegate_rejection(*old(r), id, dealer_id)->Some_0 && *final(r)
            == *old(r),
        res is Ok ==> final(r).current_dealer_id == Some(dealer_id) && final(r).phase
            == Phase::GameSelection && *final(r) == (Room {
            current_dealer_id: final(r).current_dealer_id,
            phase: final(r).phase,
            ..*old(r)
        }),
{
    match seat_of(r, id) {
        Some(_) => (),
        None => {
            return Err(ActionError::NotSeated);
        },
    };
    if !matches!(r.phase, Phase::DealerSelection) {
        return Err(ActionError::WrongPhase);
    }
    match seat_of(r, dealer_id) {
        Some(_) => (),
        None => {
            return Err(ActionError::DealerNotSeated);
        },
    };
    r.current_dealer_id = Some(dealer_id);
    r.phase = Phase::GameSelection;
    Ok(())
}

/// Why a variant choice would be rejected: only the delegated dealer may
/// choose, and only during game selection.
pub open spec fn choose_rejection(r: Room, id: u128) -> Option<ActionError> {
    match seat_index(r.players@, id) {
        None => Some(ActionError::NotSeated),
        Some(_) => if !(r.phase is GameSelection) {
            Some(ActionError::WrongPhase)
        } else if r.current_dealer_id != Some(id) {
            Some(ActionError::NotDealer)
        } else {
            None
        },
    }
}

/// The delegated dealer chooses the variant; the election list clears and
/// the hand is dealt at once.
pub fn handle_choose_game_variant(r: &mut Room, id: u128, variant: GameVariant) -> (res: Result<
    (),
    ActionError,
>)
    requires
        old(r).wf(),
    ensures
        final(r).wf(),
        (res is Err) == (choose_rejection(*old(r), id) is Some),
        res is Err ==> res->Err_0 == choose_rejection(*old(r), id)->Some_0 && *final(r) == *old(r),
        res is Ok ==> hand_started(*old(r), variant, *final(r)) && final(r).game_variant == variant
            && final(r).elected_players@.len() == 0,
        final(r).wealth() == old(r).wealth(),
{
    match seat_of(r, id) {
        Some(_) => (),
        None => {
            return Err(ActionError::NotSeated);
        },
    };
    if !matches!(r.phase, Phase::GameSelection) {
        return Err(ActionError::WrongPhase);
    }
    let is_dealer = match r.current_dealer_id {
        Some(d) => d == id,
        None => false,
    };
    if !is_dealer {
        return Err(ActionError::NotDealer);
    }
    let ghost pre = *r;
    r.game_variant = variant;
    r.elected_players = Vec::new();
    r.phase = Phase::Dealing;
    deal_hand(r);
    Ok(())
}

/// Why a comments-phase continue would be rejected.
pub open spec fn continue_rejection(r: Room, id: u128) -> Option<ActionError> {
    if !(r.phase is Comments) {
        Some(ActionError::WrongPhase)
    } else {
        match seat_index(r.players@, id) {
            None => Some(ActionError::NotSeated),
            Some(_) => None,
        }
    }
}

/// Marks the caller ready to continue past the comments phase; when everyone
/// is, the room returns to its lobby — or to dealer election with four or
/// more players — with every ready flag cleared. The result reports whether
/// the phase moved.
pub fn handle_continue_to_next_game(r: &mut Room, id: u128) -> (res: Result<bool, ActionError>)
    requires
        old(r).wf(),
    ensures
        final(r).wf(),
        (res is Err) == (continue_rejection(*old(r), id) is Some),
        res is Err ==> res->Err_0 == continue_rejection(*old(r), id)->Some_0 && *final(r) == *old(r),
        res is Ok ==> ({
            let seat = seat_index(old(r).players@, id)->Some_0;
            let players1 = old(r).players@.update(
                seat,
                (PlayerSeat { ready: true, ..old(r).players@[seat] }),
            );
            let moves = forall|i: int| 0 <= i < players1.len() ==> (#[trigger] players1[i]).ready;
            &&& res->Ok_0 == moves
            &&& (moves ==> {
                &&& final(r).phase == (if old(r).players@.len() >= 4 {
                    Phase::WaitingForDealer
                } else {
                    Phase::Lobby
                })
                &&& final(r).players@.len() == players1.len()
                &&& (forall|i: int|
                    0 <= i < players1.len() ==> #[trigger] final(r).players@[i] == (PlayerSeat {
                        ready: false,
                        ..players1[i]
                    }))
                &&& *final(r) == (Room {
                    players: final(r).players,
                    phase: final(r).phase,
                    ..*old(r)
                })
            })
            &&& (!moves ==> final(r).players@ == players1 && *final(r) == (Room {
                players: final(r).players,
                ..*old(r)
            }))
        }),
        final(r).wealth() == old(r).wealth(),
{
    if !matches!(r.phase, Phase::Comments) {
        return Err(ActionError::WrongPhase);
    }
    let seat = match seat_of(r, id) {
        Some(s) => s,
        None => {
            return Err(ActionError::NotSeated);
        },
    };
    let ghost pre = *r;
    let p = &mut r.players[seat];
    p.ready = true;
    assert(r.players@ == pre.players@.update(
        seat as int,
        (PlayerSeat { ready: true, ..pre.players@[seat as int] }),
    ));
    proof {
        lemma_sum_update(
            pre.players@,
            seat as int,
            (PlayerSeat { ready: true, ..pre.players@[seat as int] }),
        );
    }
    let ghost players1 = r.players@;

    let mut all_ready = true;
    let n = r.players.len();
    let mut i: usize = 0;
    while i < n
        invariant
            n == r.players@.len(),
            r.players@ == players1,
            *r == (Room { players: r.players, ..pre }),
            i <= n,
            all_ready == (forall|j: int| 0 <= j < i ==> (#[trigger] r.players@[j]).ready),
        decreases n - i,
    {
        if !r.players[i].ready {
            all_ready = false;
        }
        i = i + 1;
    }
    if !all_ready {
        return Ok(false);
    }
    if r.players.len() >= 4 {
        r.phase = Phase::WaitingForDealer;
    } else {
        r.phase = Phase::Lobby;
    }
    let ghost mid = *r;
    let mut k: usize = 0;
    while k < n
        invariant
            n == r.players@.len(),
            players1.len() == n,
            k <= n,
            forall|j: int|
                0 <= j < k ==> #[trigger] r.players@[j] == (PlayerSeat {
                    ready: false,
                    ..players1[j]
                }),
            forall|j: int| k <= j < n ==> r.players@[j] == players1[j],
            *r == (Room { players: r.players, ..mid }),
        decreases n - k,
    {
        let p = &mut r.players[k];
        p.ready = false;
        k = k + 1;
    }
    proof {
        lemma_chips_pointwise(players1, r.players@);
        lemma_committed_pointwise(players1, r.players@);
    }
    Ok(true)
}

/// Why a lobby variant selection would be rejected.
pub open spec fn select_rejection(r: Room, id: u128) -> Option<ActionError> {
    match seat_index(r.players@, id) {
        None => Some(ActionError::NotSeated),
        Some(_) => if !(r.phase is Lobby) {
            Some(ActionError::WrongPhase)
        } else {
            None
        },
    }
}

/// Changes the table's variant; allowed to any seated player, in the lobby
/// only.
pub fn select_game_variant(r: &mut Room, id: u128, variant: GameVariant) -> (res: Result<
    (),
    ActionError,
>)
    requires
        old(r).wf(),
    ensures
        final(r).wf(),
        (res is Err) == (select_rejection(*old(r), id) is Some),
        res is Err ==> res->Err_0 == select_rejection(*old(r), id)->Some_0 && *final(r) == *old(r),
        res is Ok ==> final(r).game_variant == variant && *final(r) == (Room {
            game_variant: final(r).game_variant,
            ..*old(r)
        }),
{
    match seat_of(r, id) {
        Some(_) => (),
        None => {
            return Err(ActionError::NotSeated);
        },
    };
    if !matches!(r.phase, Phase::Lobby) {
        return Err(ActionError::WrongPhase);
    }
    r.game_variant = variant;
    Ok(())
}

/// Schedules the next game at the given opaque timestamp and resets the
/// check-in list; allowed to any seated player.
pub fn schedule_game(r: &mut Room, id: u128, start_time: String) -> (res: Result<(), ActionError>)
    requires
        old(r).wf(),
    ensures
        final(r).wf(),
        (res is Err) == (seat_index(old(r).players@, id) is None),
        res is Err ==> res->Err_0 == ActionError::NotSeated && *final(r) == *old(r),
        res is Ok ==> final(r).scheduled_start == Some(start_time) && final(r).checked_in_players@.len() == 0 && *final(r) == (Room {
            scheduled_start: final(r).scheduled_start,
            checked_in_players: final(r).checked_in_players,
            ..*old(r)
        }),
{
    match seat_of(r, id) {
        Some(_) => (),
        None => {
            return Err(ActionError::NotSeated);
        },
    };
    r.scheduled_start = Some(start_time);
    r.checked_in_players = Vec::new();
    Ok(())
}

/// Why a check-in would be rejected.
pub open spec fn check_in_rejection(r: Room, id: u128) -> Option<ActionError> {
    match seat_index(r.players@, id) {
        None => Some(ActionError::NotSeated),
        Some(_) => if r.scheduled_start is None {
            Some(ActionError::NothingScheduled)
        } else if r.checked_in_players@.contains(id) {
            Some(ActionError::AlreadyCheckedIn)
        } else {
            None
        },
    }
}

/// Checks the caller in for the scheduled game.
pub fn check_in(r: &mut Room, id: u128) -> (res: Result<(), ActionError>)
    requires
        old(r).wf(),
    ensures
        final(r).wf(),
        (res is Err) == (check_in_rejection(*old(r), id) is Some),
        res is Err ==> res->Err_0 == check_in_rejection(*old(r), id)->Some_0 && *final(r) == *old(r),
        res is Ok ==> final(r).checked_in_players@ == old(r).checked_in_players@.push(id)
            && *final(r) == (Room {
            checked_in_players: final(r).checked_in_players,
            ..*old(r)
        }),
{
    match seat_of(r, id) {
        Some(_) => (),
        None => {
            return Err(ActionError::NotSeated);
        },
    };
    if r.scheduled_start.is_none() {
        return Err(ActionError::NothingScheduled);
    }
    let mut present = false;
    let n = r.checked_in_players.len();
    let mut i: usize = 0;
    while i < n
        invariant
            n == r.checked_in_players@.len(),
            i <= n,
            *r == *old(r),
            present == (exists|j: int| 0 <= j < i && old(r).checked_in_players@[j] == id),
        decreases n - i,
    {
        if r.checked_in_players[i] == id {
            present = true;
        }
        i = i + 1;
    }
    proof {
        if present {
            assert(old(r).checked_in_players@.contains(id));
        } else {
            assert(!old(r).checked_in_players@.contains(id));
        }
    }
    if present {
        return Err(ActionError::AlreadyCheckedIn);
    }
    r.checked_in_players.push(id);
    Ok(())
}

/// Why a table configuration would be rejected: every stake must be
/// positive, the big limit must exceed the small, and the stakes must fit
/// the machine word even at the raise cap.
pub open spec fn table_config_rejection(
    name: Seq<char>,
    ante: u64,
    limit_small: u64,
    limit_big: u64,
    max_raises: u32,
) -> Option<ActionError> {
    if name.len() == 0 {
        Some(ActionError::TableNameEmpty)
    } else if ante == 0 || limit_small == 0 || limit_big == 0 || max_raises == 0 {
        Some(ActionError::TableConfigZero)
    } else if limit_big <= limit_small {
        Some(ActionError::TableLimitOrder)
    } else if max_raises as int * limit_big as int > u64::MAX {
        Some(ActionError::TableStakesTooLarge)
    } else {
        None
    }
}

/// Creates a room with custom table stakes, after validating them.
pub fn new_with_config(
    name: String,
    game_variant: GameVariant,
    ante: u64,
    limit_small: u64,
    limit_big: u64,
    max_raises: u32,
) -> (res: Result<Room, ActionError>)
    ensures
        (res is Err) == (table_config_rejection(name@, ante, limit_small, limit_big, max_raises)
            is Some),
        res is Err ==> res->Err_0 == table_config_rejection(
            name@,
            ante,
            limit_small,
            limit_big,
            max_raises,
        )->Some_0,
        res is Ok ==> ({
            let room = res->Ok_0;
            &&& room.wf()
            &&& room.name == name
            &&& room.game_variant == game_variant
            &&& room.ante == ante
            &&& room.limit_small == limit_small
            &&& room.limit_big == limit_big
            &&& room.max_raises == max_raises
            &&& room.phase == Phase::Lobby
            &&& room.players@.len() == 0
            &&& room.pot == 0
        }),
{
    if name.unicode_len() == 0 {
        return Err(ActionError::TableNameEmpty);
    }
    if ante == 0 || limit_small == 0 || limit_big == 0 || max_raises == 0 {
        return Err(ActionError::TableConfigZero);
    }
    if limit_big <= limit_small {
        return Err(ActionError::TableLimitOrder);
    }
    if max_raises as u64 > u64::MAX / limit_big {
        proof {
            vstd::arithmetic::div_mod::lemma_fundamental_div_mod(u64::MAX as int, limit_big as int);
            vstd::arithmetic::div_mod::lemma_mod_bound(u64::MAX as int, limit_big as int);
            assert((max_raises as int) * (limit_big as int) > u64::MAX) by (nonlinear_arith)
                requires
                    (max_raises as int) > (u64::MAX as int) / (limit_big as int),
                    (limit_big as int) > 0,
                    (u64::MAX as int) == (limit_big as int) * ((u64::MAX as int) / (limit_big
                        as int)) + ((u64::MAX as int) % (limit_big as int)),
                    ((u64::MAX as int) % (limit_big as int)) < (limit_big as int),
            ;
        }
        return Err(ActionError::TableStakesTooLarge);
    }
    proof {
        vstd::arithmetic::div_mod::lemma_fundamental_div_mod(u64::MAX as int, limit_big as int);
        vstd::arithmetic::div_mod::lemma_mod_bound(u64::MAX as int, limit_big as int);
        assert((max_raises as int) * (limit_big as int) <= u64::MAX) by (nonlinear_arith)
            requires
                (max_raises as int) <= (u64::MAX as int) / (limit_big as int),
                (limit_big as int) > 0,
                (u64::MAX as int) == (limit_big as int) * ((u64::MAX as int) / (limit_big as int))
                    + ((u64::MAX as int) % (limit_big as int)),
                0 <= ((u64::MAX as int) % (limit_big as int)),
        ;
        assert(max_raises as int * limit_small as int <= max_raises as int * limit_big as int) by {
            vstd::arithmetic::mul::lemma_mul_inequality(
                limit_small as int,
                limit_big as int,
                max_raises as int,
            );
            vstd::arithmetic::mul::lemma_mul_is_commutative(limit_small as int, max_raises as int);
            vstd::arithmetic::mul::lemma_mul_is_commutative(limit_big as int, max_raises as int);
        }
    }
    let mut room = Room::new(name);
    room.game_variant = game_variant;
    room.ante = ante;
    room.limit_small = limit_small;
    room.limit_big = limit_big;
    room.max_raises = max_raises;
    Ok(room)
}

/// The identity of the player one seat left of the given dealer seat: who
/// the dealer button passes to.
pub fn next_dealer_left_of(r: &Room, current_dealer_seat: usize) -> (d: Option<u128>)
    requires
        r.players@.len() == 0 || current_dealer_seat < r.players@.len(),
    ensures
        r.players@.len() == 0 ==> d is None,
        r.players@.len() > 0 ==> d == Some(
            r.players@[(current_dealer_seat + 1) % (r.players@.len() as int)].id,
        ),
{
    let n = r.players.len();
    if n == 0 {
        return None;
    }
    let next = if current_dealer_seat + 1 < n {
        current_dealer_seat + 1
    } else {
        0
    };
    proof {
        if current_dealer_seat + 1 < n {
            vstd::arithmetic::div_mod::lemma_small_mod((current_dealer_seat + 1) as nat, n as nat);
        } else {
            vstd::arithmetic::div_mod::lemma_mod_self_0(n as int);
        }
    }
    Some(r.players[next].id)
}

} // verus!

verus! {

/// Whether a take-card intent from this player would pass the draw engine's
/// legality tests.
pub open spec fn take_card_allowed(r: Room, id: u128) -> bool {
    &&& r.phase is Acting
    &&& !r.in_betting
    &&& seat_index(r.players@, id) is Some
    &&& r.to_act_seat as int == seat_index(r.players@, id)->Some_0
    &&& !r.players@[seat_index(r.players@, id)->Some_0].folded
    &&& !r.players@[seat_index(r.players@, id)->Some_0].standing
}

/// Validates a take-card intent without applying it: the caller's seat when
/// it is legal, a human-readable reason when it is not.
pub fn can_take_card(r: &Room, player_id: u128) -> (res: Result<usize, &'static str>)
    ensures
        (res is Ok) == take_card_allowed(*r, player_id),
        res is Ok ==> Some(res->Ok_0 as int) == seat_index(r.players@, player_id),
        !(r.phase is Acting) ==> res is Err && res->Err_0@ == "Wrong phase"@,
        r.phase is Acting && r.in_betting ==> res is Err && res->Err_0@ == "Currently in betting"@,
        r.phase is Acting && !r.in_betting && seat_index(r.players@, player_id) is None ==> res
            is Err && res->Err_0@ == "Player not found"@,
        ({
            let si = seat_index(r.players@, player_id);
            r.phase is Acting && !r.in_betting && si is Some ==> {
                let seat = si->Some_0;
                &&& (r.to_act_seat as int != seat ==> res is Err && res->Err_0@
                    == "Not your turn"@)
                &&& (r.to_act_seat as int == seat && r.players@[seat].folded ==> res is Err
                    && res->Err_0@ == "Player folded"@)
                &&& (r.to_act_seat as int == seat && !r.players@[seat].folded
                    && r.players@[seat].standing ==> res is Err && res->Err_0@
                    == "Player already standing"@)
            }
        }),
{
    proof {
        reveal_strlit("Wrong phase");
        reveal_strlit("Currently in betting");
        reveal_strlit("Player not found");
        reveal_strlit("Not your turn");
        reveal_strlit("Player folded");
        reveal_strlit("Player already standing");
    }
    if !matches!(r.phase, Phase::Acting) {
        return Err("Wrong phase");
    }
    if r.in_betting {
        return Err("Currently in betting");
    }
    let seat = match seat_of(r, player_id) {
        Some(s) => s,
        None => {
            return Err("Player not found");
        },
    };
    if r.to_act_seat != seat {
        return Err("Not your turn");
    }
    if r.players[seat].folded {
        return Err("Player folded");
    }
    if r.players[seat].standing {
        return Err("Player already standing");
    }
    Ok(seat)
}

/// Why posting a comment would be rejected: comments are taken from seated
/// players during the comments phase only.
pub open spec fn post_comment_rejection(r: Room, id: u128) -> Option<ActionError> {
    if !(r.phase is Comments) {
        Some(ActionError::WrongPhase)
    } else {
        match seat_index(r.players@, id) {
            None => Some(ActionError::NotSeated),
            Some(_) => None,
        }
    }
}

/// Validates a post-comment intent: the caller's seat when it is legal (so
/// the comment can be attributed by name), the reason when it is not. The
/// room is never changed by a comment.
pub fn can_post_comment(r: &Room, id: u128) -> (res: Result<usize, ActionError>)
    ensures
        (res is Ok) == (post_comment_rejection(*r, id) is None),
        res is Err ==> res->Err_0 == post_comment_rejection(*r, id)->Some_0,
        res is Ok ==> Some(res->Ok_0 as int) == seat_index(r.players@, id),
{
    if !matches!(r.phase, Phase::Comments) {
        return Err(ActionError::WrongPhase);
    }
    match seat_of(r, id) {
        Some(s) => Ok(s),
        None => Err(ActionError::NotSeated),
    }
}

/// Whether a bet or raise intent from this player would pass the betting
/// engine's legality tests.
pub open spec fn bet_or_raise_allowed(r: Room, id: u128, is_raise: bool) -> bool {
    &&& r.phase is Acting
    &&& r.in_betting
    &&& seat_index(r.players@, id) is Some
    &&& r.to_act_seat as int == seat_index(r.players@, id)->Some_0
    &&& !r.players@[seat_index(r.players@, id)->Some_0].folded
    &&& (r.current_bet == 0 ==> !is_raise)
    &&& (r.current_bet > 0 ==> is_raise)
    &&& (is_raise ==> r.raises_made < r.max_raises)
}

/// Validates a bet or raise intent without applying it: the caller's seat
/// when it is legal, a human-readable reason when it is not.
pub fn can_bet_or_raise(r: &Room, player_id: u128, is_raise: bool) -> (res: Result<
    usize,
    &'static str,
>)
    ensures
        (res is Ok) == bet_or_raise_allowed(*r, player_id, is_raise),
        res is Ok ==> Some(res->Ok_0 as int) == seat_index(r.players@, player_id),
        !(r.in_betting && r.phase is Acting) ==> res is Err && res->Err_0@
            == "Not in betting phase"@,
        r.in_betting && r.phase is Acting && seat_index(r.players@, player_id) is None ==> res
            is Err && res->Err_0@ == "Player not found"@,
        ({
            let si = seat_index(r.players@, player_id);
            r.in_betting && r.phase is Acting && si is Some ==> {
                let seat = si->Some_0;
                &&& (r.to_act_seat as int != seat ==> res is Err && res->Err_0@
                    == "Not your turn"@)
                &&& (r.to_act_seat as int == seat && r.players@[seat].folded ==> res is Err
                    && res->Err_0@ == "Player folded"@)
                &&& (r.to_act_seat as int == seat && !r.players@[seat].folded ==> {
                    &&& (r.current_bet == 0 && is_raise ==> res is Err && res->Err_0@
                        == "Cannot raise when no bet exists"@)
                    &&& (r.current_bet > 0 && !is_raise ==> res is Err && res->Err_0@
                        == "Must raise when bet exists"@)
                    &&& (r.current_bet > 0 && is_raise && r.raises_made >= r.max_raises ==> res
                        is Err && res->Err_0@ == "Maximum raises reached"@)
                })
            }
        }),
{
    proof {
        reveal_strlit("Not in betting phase");
        reveal_strlit("Player not found");
        reveal_strlit("Not your turn");
        reveal_strlit("Player folded");
        reveal_strlit("Cannot raise when no bet exists");
        reveal_strlit("Must raise when bet exists");
        reveal_strlit("Maximum raises reached");
    }
    if !r.in_betting || !matches!(r.phase, Phase::Acting) {
        return Err("Not in betting phase");
    }
    let seat = match seat_of(r, player_id) {
        Some(s) => s,
        None => {
            return Err("Player not found");
        },
    };
    if r.to_act_seat != seat {
        return Err("Not your turn");
    }
    if r.players[seat].folded {
        return Err("Player folded");
    }
    if r.current_bet == 0 && is_raise {
        return Err("Cannot raise when no bet exists");
    }
    if r.current_bet > 0 && !is_raise {
        return Err("Must raise when bet exists");
    }
    if is_raise && r.raises_made >= r.max_raises {
        return Err("Maximum raises reached");
    }
    Ok(seat)
}

} // verus!

verus! {

/// Every card in every hand among the first `k` seats, as a face-down
/// multiset.
pub open spec fn hands_ms(players: Seq<PlayerSeat>, k: int) -> Multiset<Card>
    decreases k,
{
    if k <= 0 {
        Multiset::empty()
    } else {
        hands_ms(players, k - 1).add(faces(seat_cards(players, k - 1)).to_multiset())
    }
}

/// Provenance of a deal: the remaining deck, every hand and the board
/// together are exactly the fresh 52-card deck — so every dealt card is
/// distinct and really came off the deck.
pub open spec fn deal_provenance(
    deck: Seq<Card>,
    players: Seq<PlayerSeat>,
    community: Seq<Card>,
) -> bool {
    deck.to_multiset().add(hands_ms(players, players.len() as int)).add(
        faces(community).to_multiset(),
    ) =~= full_deck().to_multiset()
}

/// A sequence with no cards holds the empty multiset.
pub proof fn lemma_no_cards_multiset(s: Seq<Card>)
    requires
        s.len() == 0,
    ensures
        s.to_multiset() =~= Multiset::<Card>::empty(),
{
    broadcast use vstd::seq_lib::group_to_multiset_ensures;
    broadcast use vstd::multiset::group_multiset_axioms;

    assert forall|c: Card| s.to_multiset().count(c) == Multiset::<Card>::empty().count(c) by {
        assert(!s.contains(c));
    }
}

/// Seats holding no cards contribute nothing.
pub proof fn lemma_hands_ms_zero(players: Seq<PlayerSeat>, k: int)
    requires
        0 <= k <= players.len(),
        forall|i: int|
            0 <= i < players.len() ==> (#[trigger] players[i]).up_cards@.len() == 0
                && players[i].down_cards@.len() == 0,
    ensures
        hands_ms(players, k) =~= Multiset::<Card>::empty(),
    decreases k,
{
    broadcast use vstd::multiset::group_multiset_axioms;

    if k > 0 {
        lemma_hands_ms_zero(players, k - 1);
        assert(faces(seat_cards(players, k - 1)).len() == 0);
        lemma_no_cards_multiset(faces(seat_cards(players, k - 1)));
    }
}

/// Seat lists agreeing pointwise on their cards hold the same cards.
pub proof fn lemma_hands_ms_congruent(a: Seq<PlayerSeat>, b: Seq<PlayerSeat>, k: int)
    requires
        forall|i: int|
            0 <= i < k ==> (#[trigger] a[i]).up_cards@ == b[i].up_cards@ && a[i].down_cards@
                == b[i].down_cards@,
    ensures
        hands_ms(a, k) == hands_ms(b, k),
    decreases k,
{
    if k > 0 {
        lemma_hands_ms_congruent(a, b, k - 1);
        assert(seat_cards(a, k - 1) == seat_cards(b, k - 1));
    }
}

/// Turning a pushed card face down commutes with taking multisets.
pub proof fn lemma_faces_push(s: Seq<Card>, c: Card)
    ensures
        faces(s.push(c)).to_multiset() =~= faces(s).to_multiset().insert(card_face(c)),
{
    broadcast use vstd::multiset::group_multiset_axioms;

    assert(faces(s.push(c)) =~= faces(s).push(card_face(c)));
    vstd::seq_lib::to_multiset_build(faces(s), card_face(c));
}

/// A seat that gained exactly one card, up or down, holds one more card.
pub proof fn lemma_seat_gain(s0: PlayerSeat, s1: PlayerSeat, c: Card)
    requires
        (s1.up_cards@ == s0.up_cards@.push(c) && s1.down_cards@ == s0.down_cards@) || (
        s1.down_cards@ == s0.down_cards@.push(c) && s1.up_cards@ == s0.up_cards@),
    ensures
        faces(s1.up_cards@ + s1.down_cards@).to_multiset() =~= faces(
            s0.up_cards@ + s0.down_cards@,
        ).to_multiset().insert(card_face(c)),
{
    broadcast use vstd::multiset::group_multiset_axioms;

    assert(faces(s0.up_cards@ + s0.down_cards@) =~= faces(s0.up_cards@) + faces(s0.down_cards@));
    assert(faces(s1.up_cards@ + s1.down_cards@) =~= faces(s1.up_cards@) + faces(s1.down_cards@));
    vstd::seq_lib::lemma_multiset_commutative(faces(s0.up_cards@), faces(s0.down_cards@));
    vstd::seq_lib::lemma_multiset_commutative(faces(s1.up_cards@), faces(s1.down_cards@));
    if s1.up_cards@ == s0.up_cards@.push(c) && s1.down_cards@ == s0.down_cards@ {
        lemma_faces_push(s0.up_cards@, c);
    } else {
        lemma_faces_push(s0.down_cards@, c);
    }
}

/// Dealing one card into seat `i` adds exactly that card to the table's
/// hands.
pub proof fn lemma_hands_ms_gain(players: Seq<PlayerSeat>, i: int, p: PlayerSeat, c: Card, k: int)
    requires
        0 <= i < k <= players.len(),
        faces(seat_cards(players.update(i, p), i)).to_multiset() =~= faces(
            seat_cards(players, i),
        ).to_multiset().insert(card_face(c)),
    ensures
        hands_ms(players.update(i, p), k) =~= hands_ms(players, k).insert(card_face(c)),
    decreases k,
{
    broadcast use vstd::multiset::group_multiset_axioms;

    let u = players.update(i, p);
    if k - 1 == i {
        lemma_hands_ms_congruent(u, players, k - 1);
    } else {
        lemma_hands_ms_gain(players, i, p, c, k - 1);
        assert(seat_cards(u, k - 1) == seat_cards(players, k - 1));
    }
}

/// Every card of a deck whose contents are the fresh deck's lies face down.
pub proof fn lemma_full_deck_faces(d: Seq<Card>)
    requires
        d.to_multiset() == full_deck().to_multiset(),
    ensures
        forall|i: int| 0 <= i < d.len() ==> !(#[trigger] d[i]).face_up,
{
    broadcast use vstd::seq_lib::group_to_multiset_ensures;

    assert forall|i: int| 0 <= i < d.len() implies !(#[trigger] d[i]).face_up by {
        assert(d.contains(d[i]));
        assert(d.to_multiset().count(d[i]) > 0);
        assert(full_deck().contains(d[i]));
        let j = choose|j: int| 0 <= j < full_deck().len() && full_deck()[j] == d[i];
        assert(!full_deck()[j].face_up);
    }
}

/// Moving one card from one pile to another leaves the combined contents
/// unchanged.
pub proof fn lemma_ms_move(a: Multiset<Card>, b: Multiset<Card>, x: Card)
    requires
        a.count(x) > 0,
    ensures
        a.remove(x).add(b.insert(x)) =~= a.add(b),
{
    broadcast use vstd::multiset::group_multiset_axioms;

}

} // verus!
