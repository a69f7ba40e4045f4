//! Public snapshots: what the room broadcasts about itself. A public
//! snapshot never carries any player's down-cards; private hands travel only
//! to their owner.

use vstd::prelude::*;
use crate::cards::Card;
use crate::room::{Room, GameVariant, Phase};

verus! {

/// What everyone may know about one seat: its up cards and card count, but
/// never its down cards.
#[derive(Debug, Clone)]
pub struct PublicPlayer {
    pub id: u128,
    pub name: String,
    pub seat: usize,
    pub chips: u64,
    pub folded: bool,
    pub standing: bool,
    pub up_cards: Vec<Card>,
    pub cards_count: usize,
    pub committed_round: u64,
    pub ready: bool,
}

/// The one player's own down-cards; sent only to that player.
#[derive(Debug, Clone)]
pub struct PrivateHand {
    pub down_cards: Vec<Card>,
}

/// The broadcast view of a room.
#[derive(Debug, Clone)]
pub struct PublicRoom {
    pub room: String,
    pub game_variant: GameVariant,
    pub dealer_seat: usize,
    pub to_act_seat: usize,
    pub pot: u64,
    pub ante: u64,
    pub phase: Phase,
    pub players: Vec<PublicPlayer>,
    pub in_betting: bool,
    pub current_bet: u64,
    pub raises_made: u32,
    pub max_raises: u32,
    pub round: u32,
    pub limit_small: u64,
    pub limit_big: u64,
    pub community_cards: Vec<Card>,
    pub scheduled_start: Option<String>,
    pub checked_in_players: Vec<u128>,
    pub elected_players: Vec<u128>,
    pub current_dealer_id: Option<u128>,
    pub available_variants: Vec<GameVariant>,
}

/// One row of the table directory.
#[derive(Debug, Clone)]
pub struct TableInfo {
    pub name: String,
    pub game_variant: GameVariant,
    pub player_count: usize,
    pub phase: Phase,
    /// `None` for a centrally hosted table, the port for a distributed one.
    pub server_port: Option<u16>,
}

/// The public view of one seat matches it: same identity and public state,
/// the seat's up cards and its total card count — and nothing of the
/// down-cards beyond how many there are.
pub open spec fn public_player_ok(p: crate::room::PlayerSeat, seat: int, q: PublicPlayer) -> bool {
    &&& q.id == p.id
    &&& q.name == p.name
    &&& q.seat == seat
    &&& q.chips == p.chips
    &&& q.folded == p.folded
    &&& q.standing == p.standing
    &&& q.up_cards@ == p.up_cards@
    &&& q.cards_count == p.up_cards@.len() + p.down_cards@.len()
    &&& q.committed_round == p.committed_round
    &&& q.ready == p.ready
}

/// What the broadcast snapshot exposes of a room: every public field as it
/// stands, each seat through its public view only.
pub open spec fn snapshot_ok(r: Room, s: PublicRoom) -> bool {
    &&& s.room == r.name
    &&& s.game_variant == r.game_variant
    &&& s.dealer_seat == r.dealer_seat
    &&& s.to_act_seat == r.to_act_seat
    &&& s.pot == r.pot
    &&& s.ante == r.ante
    &&& s.phase == r.phase
    &&& s.in_betting == r.in_betting
    &&& s.current_bet == r.current_bet
    &&& s.raises_made == r.raises_made
    &&& s.max_raises == r.max_raises
    &&& s.round == r.round
    &&& s.limit_small == r.limit_small
    &&& s.limit_big == r.limit_big
    &&& s.community_cards@ == r.community_cards@
    &&& s.scheduled_start == r.scheduled_start
    &&& s.checked_in_players@ == r.checked_in_players@
    &&& s.elected_players@ == r.elected_players@
    &&& s.current_dealer_id == r.current_dealer_id
    &&& s.available_variants@ == seq![
        GameVariant::SevenTwentySeven,
        GameVariant::Omaha,
        GameVariant::TexasHoldem,
    ]
    &&& s.players@.len() == r.players@.len()
    &&& forall|i: int|
        0 <= i < r.players@.len() ==> public_player_ok(
            r.players@[i],
            i,
            #[trigger] s.players@[i],
        )
}

/// Converts a room to the snapshot broadcast to its players and spectators.
/// The snapshot never reveals any seat's down-cards: it carries each seat's
/// up cards and total card count only.
pub fn public_room(r: &Room) -> (s: PublicRoom)
    requires
        r.cards_ok(),
    ensures
        snapshot_ok(*r, s),
{
    let mut players: Vec<PublicPlayer> = Vec::new();
    let mut i: usize = 0;
    while i < r.players.len()
        invariant
            r.cards_ok(),
            i <= r.players@.len(),
            players@.len() == i,
            forall|j: int|
                0 <= j < i ==> public_player_ok(r.players@[j], j, #[trigger] players@[j]),
        decreases r.players@.len() - i,
    {
        let p = &r.players[i];
        let mut up: Vec<Card> = Vec::new();
        let mut k: usize = 0;
        while k < p.up_cards.len()
            invariant
                k <= p.up_cards@.len(),
                up@ =~= p.up_cards@.take(k as int),
                *p == r.players@[i as int],
                i < r.players@.len(),
            decreases p.up_cards@.len() - k,
        {
            up.push(p.up_cards[k]);
            k = k + 1;
        }
        assert(up@ =~= p.up_cards@);
        players.push(
            PublicPlayer {
                id: p.id,
                name: p.name.clone(),
                seat: i,
                chips: p.chips,
                folded: p.folded,
                standing: p.standing,
                up_cards: up,
                cards_count: p.up_cards.len() + p.down_cards.len(),
                committed_round: p.committed_round,
                ready: p.ready,
            },
        );
        i = i + 1;
    }

    let mut community: Vec<Card> = Vec::new();
    let mut k: usize = 0;
    while k < r.community_cards.len()
        invariant
            k <= r.community_cards@.len(),
            community@ =~= r.community_cards@.take(k as int),
        decreases r.community_cards@.len() - k,
    {
        community.push(r.community_cards[k]);
        k = k + 1;
    }
    assert(community@ =~= r.community_cards@);

    let mut variants: Vec<GameVariant> = Vec::new();
    variants.push(GameVariant::SevenTwentySeven);
    variants.push(GameVariant::Omaha);
    variants.push(GameVariant::TexasHoldem);
    assert(variants@ =~= seq![
        GameVariant::SevenTwentySeven,
        GameVariant::Omaha,
        GameVariant::TexasHoldem,
    ]);

    let checked = clone_ids(&r.checked_in_players);
    let elected = clone_ids(&r.elected_players);

    PublicRoom {
        room: r.name.clone(),
        game_variant: r.game_variant,
        dealer_seat: r.dealer_seat,
        to_act_seat: r.to_act_seat,
        pot: r.pot,
        ante: r.ante,
        phase: r.phase,
        players,
        in_betting: r.in_betting,
        current_bet: r.current_bet,
        raises_made: r.raises_made,
        max_raises: r.max_raises,
        round: r.round,
        limit_small: r.limit_small,
        limit_big: r.limit_big,
        community_cards: community,
        scheduled_start: clone_schedule(&r.scheduled_start),
        checked_in_players: checked,
        elected_players: elected,
        current_dealer_id: r.current_dealer_id,
        available_variants: variants,
    }
}

fn clone_ids(v: &Vec<u128>) -> (out: Vec<u128>)
    ensures
        out@ == v@,
{
    let mut out: Vec<u128> = Vec::new();
    let mut k: usize = 0;
    while k < v.len()
        invariant
            k <= v@.len(),
            out@ =~= v@.take(k as int),
        decreases v@.len() - k,
    {
        out.push(v[k]);
        k = k + 1;
    }
    assert(out@ =~= v@);
    out
}

fn clone_schedule(s: &Option<String>) -> (out: Option<String>)
    ensures
        out == *s,
{
    match s {
        None => None,
        Some(t) => {
            let c = t.clone();
            assert(c@ == t@);
            Some(c)
        },
    }
}

/// The caller's own private hand: their down-cards and nothing else.
pub fn private_hand_of(r: &Room, seat: usize) -> (h: PrivateHand)
    requires
        seat < r.players@.len(),
    ensures
        h.down_cards@ == r.players@[seat as int].down_cards@,
{
    let p = &r.players[seat];
    let mut down: Vec<Card> = Vec::new();
    let mut k: usize = 0;
    while k < p.down_cards.len()
        invariant
            k <= p.down_cards@.len(),
            down@ =~= p.down_cards@.take(k as int),
            *p == r.players@[seat as int],
            seat < r.players@.len(),
        decreases p.down_cards@.len() - k,
    {
        down.push(p.down_cards[k]);
        k = k + 1;
    }
    assert(down@ =~= p.down_cards@);
    PrivateHand { down_cards: down }
}

} // verus!
