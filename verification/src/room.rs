//! The aggregate room state: seated players, spectators, pot, phase,
//! per-round betting and draw bookkeeping, community cards and scheduling
//! metadata, together with its well-formedness invariant and the chip-moving
//! primitive every betting operation goes through.

use vstd::prelude::*;
use crate::cards::{Card, Deck};

verus! {

/// Maximum number of seats at one table.
pub const MAX_PLAYERS: usize = 7;

/// Chips a newly seated player starts with.
pub const STARTING_CHIPS: u64 = 1000;

/// Visibility scope of one chat message.
#[derive(Debug, Clone, Copy, PartialEq, Eq, Structural)]
pub enum MessageScope {
    /// Visible to the current room only.
    Match,
    /// Visible to every connected player.
    Global,
    /// Visible to players in the same game group.
    Group,
    /// Between two specific players.
    Private,
}

impl Default for MessageScope {
    fn default() -> (r: Self)
        ensures
            r == MessageScope::Match,
    {
        MessageScope::Match
    }
}

/// The game dealt at this table.
#[derive(Debug, Clone, Copy, PartialEq, Eq, Structural)]
pub enum GameVariant {
    SevenTwentySeven,
    Omaha,
    TexasHoldem,
}

impl Default for GameVariant {
    fn default() -> (r: Self)
        ensures
            r == GameVariant::SevenTwentySeven,
    {
        GameVariant::SevenTwentySeven
    }
}

/// Number of hole cards dealt to each player, as a spec value.
pub open spec fn spec_hole_cards(v: GameVariant) -> int {
    match v {
        GameVariant::SevenTwentySeven => 2,
        GameVariant::Omaha => 4,
        GameVariant::TexasHoldem => 2,
    }
}

/// Number of community (board) cards dealt for the variant, as a spec
/// value: the three-card flop for the community variants, none for the draw
/// variant.
pub open spec fn spec_community_cards(v: GameVariant) -> int {
    match v {
        GameVariant::SevenTwentySeven => 0,
        GameVariant::Omaha => 3,
        GameVariant::TexasHoldem => 3,
    }
}

/// Most cards one player may ever hold in the variant, as a spec value.
pub open spec fn spec_max_cards(v: GameVariant) -> int {
    match v {
        GameVariant::SevenTwentySeven => 7,
        GameVariant::Omaha => 4,
        GameVariant::TexasHoldem => 2,
    }
}

impl GameVariant {
    /// Number of hole cards dealt to each player.
    pub fn hole_cards(&self) -> (n: usize)
        ensures
            n == spec_hole_cards(*self),
    {
        match self {
            GameVariant::SevenTwentySeven => 2,
            GameVariant::Omaha => 4,
            GameVariant::TexasHoldem => 2,
        }
    }

    /// Number of community (board) cards dealt for the variant.
    pub fn community_cards(&self) -> (n: usize)
        ensures
            n == spec_community_cards(*self),
    {
        match self {
            GameVariant::SevenTwentySeven => 0,
            GameVariant::Omaha => 3,
            GameVariant::TexasHoldem => 3,
        }
    }

    /// Maximum number of cards a player can have.
    pub fn max_cards_per_player(&self) -> (n: usize)
        ensures
            n == spec_max_cards(*self),
    {
        match self {
            GameVariant::SevenTwentySeven => 7,
            GameVariant::Omaha => 4,
            GameVariant::TexasHoldem => 2,
        }
    }

    /// Whether this variant uses community cards.
    pub fn uses_community_cards(&self) -> (b: bool)
        ensures
            b == (spec_community_cards(*self) > 0),
    {
        match self {
            GameVariant::SevenTwentySeven => false,
            GameVariant::Omaha => true,
            GameVariant::TexasHoldem => true,
        }
    }
}

/// The room's lifecycle phase; exactly one holds at any time.
#[derive(Debug, Clone, Copy, PartialEq, Eq, Structural)]
pub enum Phase {
    Lobby,
    /// At least four players joined; waiting for all of them to elect to
    /// start.
    WaitingForDealer,
    /// Players have elected; a dealer is being delegated.
    DealerSelection,
    /// The delegated dealer is choosing the game variant.
    GameSelection,
    Dealing,
    Acting,
    Showdown,
    /// Post-hand comments before the next hand.
    Comments,
}

/// One seat at the table. Seats are append-only for the lifetime of a room
/// and addressed by their stable index.
#[derive(Debug, Clone)]
pub struct PlayerSeat {
    /// Stable identity of the player holding the seat.
    pub id: u128,
    pub name: String,
    pub chips: u64,
    pub folded: bool,
    /// A standing seat may still act in betting but never draws again.
    pub standing: bool,
    pub up_cards: Vec<Card>,
    pub down_cards: Vec<Card>,
    pub ready: bool,
    /// Chips this seat has moved into the pot in the current betting round.
    pub committed_round: u64,
}

/// A non-playing observer; sees public snapshots only.
#[derive(Debug, Clone)]
pub struct Spectator {
    pub id: u128,
    pub name: String,
}

/// Sum of all seats' chips.
pub open spec fn chips_sum(players: Seq<PlayerSeat>) -> int
    decreases players.len(),
{
    if players.len() == 0 {
        0
    } else {
        chips_sum(players.drop_last()) + players.last().chips
    }
}

/// Sum of all seats' current-round committed chips.
pub open spec fn committed_sum(players: Seq<PlayerSeat>) -> int
    decreases players.len(),
{
    if players.len() == 0 {
        0
    } else {
        committed_sum(players.drop_last()) + players.last().committed_round
    }
}

/// Number of seats that have not folded.
pub open spec fn alive_count(players: Seq<PlayerSeat>) -> int
    decreases players.len(),
{
    if players.len() == 0 {
        0
    } else {
        alive_count(players.drop_last()) + if players.last().folded {
            0int
        } else {
            1int
        }
    }
}

pub proof fn lemma_sums_nonneg(players: Seq<PlayerSeat>)
    ensures
        0 <= chips_sum(players),
        0 <= committed_sum(players),
        0 <= alive_count(players) <= players.len(),
    decreases players.len(),
{
    if players.len() > 0 {
        lemma_sums_nonneg(players.drop_last());
    }
}

/// One seat's chips (and committed chips) never exceed the whole table's sum.
pub proof fn lemma_sum_element(players: Seq<PlayerSeat>, i: int)
    requires
        0 <= i < players.len(),
    ensures
        players[i].chips <= chips_sum(players),
        players[i].committed_round <= committed_sum(players),
    decreases players.len(),
{
    lemma_sums_nonneg(players.drop_last());
    if i < players.len() - 1 {
        lemma_sum_element(players.drop_last(), i);
    }
}

/// How replacing one seat moves the table sums.
pub proof fn lemma_sum_update(players: Seq<PlayerSeat>, i: int, p: PlayerSeat)
    requires
        0 <= i < players.len(),
    ensures
        chips_sum(players.update(i, p)) == chips_sum(players) - players[i].chips + p.chips,
        committed_sum(players.update(i, p)) == committed_sum(players) - players[i].committed_round
            + p.committed_round,
        alive_count(players.update(i, p)) == alive_count(players) - (if players[i].folded {
            0int
        } else {
            1int
        }) + (if p.folded {
            0int
        } else {
            1int
        }),
    decreases players.len(),
{
    let u = players.update(i, p);
    if i == players.len() - 1 {
        assert(u.drop_last() =~= players.drop_last());
    } else {
        assert(u.drop_last() =~= players.drop_last().update(i, p));
        assert(u.last() == players.last());
        lemma_sum_update(players.drop_last(), i, p);
    }
}

/// Appending a seat adds its chips to the table sums.
pub proof fn lemma_sum_push(players: Seq<PlayerSeat>, p: PlayerSeat)
    ensures
        chips_sum(players.push(p)) == chips_sum(players) + p.chips,
        committed_sum(players.push(p)) == committed_sum(players) + p.committed_round,
        alive_count(players.push(p)) == alive_count(players) + if p.folded {
            0int
        } else {
            1int
        },
{
    assert(players.push(p).drop_last() =~= players);
}

/// The room: the aggregate every player intent is applied to, one mutual
/// exclusion boundary around each.
#[derive(Debug)]
pub struct Room {
    pub name: String,
    pub game_variant: GameVariant,
    /// Fixed contribution every seat commits at hand start.
    pub ante: u64,
    /// Bet unit for the first two rounds.
    pub limit_small: u64,
    /// Bet unit from the third round on.
    pub limit_big: u64,
    /// Cap on raises within one betting round.
    pub max_raises: u32,
    /// The hand's draw source; absent between hands.
    pub deck: Option<Deck>,
    pub players: Vec<PlayerSeat>,
    pub dealer_seat: usize,
    pub to_act_seat: usize,
    pub pot: u64,
    pub phase: Phase,
    /// Current round number within the hand, starting at 1.
    pub round: u32,
    /// Whether the acting phase is currently in its betting sub-phase.
    pub in_betting: bool,
    /// Seat that opened the current draw round.
    pub draw_started_seat: usize,
    /// Per-seat completion of the current draw round.
    pub draw_acted: Vec<bool>,
    /// Seat that opened the current betting round.
    pub betting_started_seat: usize,
    pub last_aggressor_seat: Option<usize>,
    pub current_bet: u64,
    pub raises_made: u32,
    /// Per-seat completion of the current betting round.
    pub betting_acted: Vec<bool>,
    pub community_cards: Vec<Card>,
    /// Scheduled start time, as an opaque timestamp string.
    pub scheduled_start: Option<String>,
    pub checked_in_players: Vec<u128>,
    pub spectators: Vec<Spectator>,
    /// Players who have elected to start (dealer-selection path).
    pub elected_players: Vec<u128>,
    pub current_dealer_id: Option<u128>,
}

impl Room {
    /// Seat `i` exists.
    pub open spec fn seat_ok(self, i: int) -> bool {
        0 <= i < self.players@.len()
    }

    /// Seat `i` exists and has not folded.
    pub open spec fn seat_alive(self, i: int) -> bool {
        self.seat_ok(i) && !self.players@[i].folded
    }

    /// Seat `i` may be given the turn in the draw sub-phase.
    pub open spec fn draw_eligible(self, i: int) -> bool {
        self.seat_alive(i) && !self.players@[i].standing && !self.draw_acted@[i]
    }

    /// Seat `i` may be given the turn in the betting sub-phase.
    pub open spec fn bet_eligible(self, i: int) -> bool {
        self.seat_alive(i) && !self.betting_acted@[i]
    }

    /// The bet unit of the current round: the small limit for the first two
    /// rounds, the big limit afterwards.
    pub open spec fn spec_bet_unit(self) -> int {
        if self.round <= 2 {
            self.limit_small as int
        } else {
            self.limit_big as int
        }
    }

    /// Total chips in play: the pot plus every seat's stack. Conserved by
    /// every intent within a hand.
    pub open spec fn wealth(self) -> int {
        self.pot + chips_sum(self.players@)
    }

    /// Every committed chip is mirrored in the pot, and all chips in play fit
    /// the machine word.
    pub open spec fn money_ok(self) -> bool {
        &&& committed_sum(self.players@) <= self.pot
        &&& self.wealth() <= u64::MAX
    }

    /// The betting limits cannot overflow even at the raise cap, and the cap
    /// admits at least the opening bet.
    pub open spec fn limits_ok(self) -> bool {
        &&& self.max_raises >= 1
        &&& self.limit_small >= 1
        &&& self.limit_big >= 1
        &&& self.max_raises as int * self.limit_small as int <= u64::MAX
        &&& self.max_raises as int * self.limit_big as int <= u64::MAX
    }

    /// While acting, the per-seat bookkeeping vectors cover every seat.
    pub open spec fn acted_ok(self) -> bool {
        self.phase is Acting ==> {
            &&& self.draw_acted@.len() == self.players@.len()
            &&& self.betting_acted@.len() == self.players@.len()
        }
    }

    /// While acting, the turn cursor points at a seat that may actually act:
    /// never a folded seat, and in the draw sub-phase never a standing or
    /// already-acted one.
    pub open spec fn turn_ok(self) -> bool {
        self.phase is Acting ==> if self.in_betting {
            self.bet_eligible(self.to_act_seat as int)
        } else {
            self.draw_eligible(self.to_act_seat as int)
        }
    }

    /// While betting, the raise count respects the cap, the current bet is
    /// exactly the raises times the round's unit, and no seat has committed
    /// beyond the current bet.
    pub open spec fn betting_ok(self) -> bool {
        self.phase is Acting && self.in_betting ==> {
            &&& self.raises_made <= self.max_raises
            &&& self.current_bet == self.raises_made as int * self.spec_bet_unit()
            &&& forall|i: int|
                0 <= i < self.players@.len() ==> (#[trigger] self.players@[i]).committed_round
                    <= self.current_bet
        }
    }

    /// The dealer cursor stays within the seat list (and rests at the first
    /// seat while the table is empty).
    pub open spec fn dealer_ok(self) -> bool {
        if self.players@.len() > 0 {
            self.dealer_seat < self.players@.len()
        } else {
            self.dealer_seat == 0
        }
    }

    /// No seat ever holds more cards than any variant allows.
    pub open spec fn cards_ok(self) -> bool {
        forall|i: int|
            self.seat_ok(i) ==> #[trigger] self.players@[i].up_cards@.len()
                + self.players@[i].down_cards@.len() <= 7
    }

    /// The table never seats more than the player cap.
    pub open spec fn seats_ok(self) -> bool {
        self.players@.len() <= MAX_PLAYERS
    }

    /// Well-formedness: what every engine operation requires of the room and
    /// re-establishes on completion.
    pub open spec fn wf(self) -> bool {
        &&& self.seats_ok()
        &&& self.money_ok()
        &&& self.limits_ok()
        &&& self.acted_ok()
        &&& self.turn_ok()
        &&& self.betting_ok()
        &&& self.dealer_ok()
        &&& self.cards_ok()
    }

    /// Everything `wf` demands except a legal turn cursor: the state the
    /// room is in after an action has been applied to its seat but before
    /// the turn has advanced.
    pub open spec fn mid_action_ok(self) -> bool {
        &&& self.players@.len() > 0
        &&& self.seats_ok()
        &&& self.money_ok()
        &&& self.limits_ok()
        &&& self.cards_ok()
        &&& self.dealer_ok()
        &&& self.phase is Acting
        &&& self.draw_acted@.len() == self.players@.len()
        &&& self.betting_acted@.len() == self.players@.len()
        &&& self.to_act_seat < self.players@.len()
        &&& self.betting_ok()
    }

    /// The mid-action state of the betting sub-phase.
    pub open spec fn mid_bet_ok(self) -> bool {
        self.mid_action_ok() && self.in_betting
    }

    /// The mid-action state of the draw sub-phase.
    pub open spec fn mid_draw_ok(self) -> bool {
        self.mid_action_ok() && !self.in_betting
    }

    /// A fresh room in the lobby with the default table stakes.
    pub fn new(name: String) -> (r: Room)
        ensures
            r.wf(),
            r.players@.len() == 0,
            r.spectators@.len() == 0,
            r.phase == Phase::Lobby,
            r.pot == 0,
            r.ante == 10,
            r.limit_small == 10,
            r.limit_big == 20,
            r.max_raises == 3,
            r.game_variant == GameVariant::SevenTwentySeven,
            r.dealer_seat == 0,
            r.round == 0,
            r.in_betting == false,
            r.deck is None,
            r.current_bet == 0,
            r.raises_made == 0,
            r.community_cards@.len() == 0,
            r.to_act_seat == 0,
            r.draw_started_seat == 0,
            r.betting_started_seat == 0,
            r.last_aggressor_seat is None,
            r.draw_acted@.len() == 0,
            r.betting_acted@.len() == 0,
            r.current_dealer_id is None,
            r.scheduled_start is None,
            r.elected_players@.len() == 0,
            r.checked_in_players@.len() == 0,
            r.name == name,
    {
        Room {
            name,
            game_variant: GameVariant::SevenTwentySeven,
            ante: 10,
            limit_small: 10,
            limit_big: 20,
            max_raises: 3,
            deck: None,
            players: Vec::new(),
            dealer_seat: 0,
            to_act_seat: 0,
            pot: 0,
            phase: Phase::Lobby,
            round: 0,
            in_betting: false,
            draw_started_seat: 0,
            draw_acted: Vec::new(),
            betting_started_seat: 0,
            last_aggressor_seat: None,
            current_bet: 0,
            raises_made: 0,
            betting_acted: Vec::new(),
            community_cards: Vec::new(),
            scheduled_start: None,
            checked_in_players: Vec::new(),
            spectators: Vec::new(),
            elected_players: Vec::new(),
            current_dealer_id: None,
        }
    }
}

/// The first seat from `k` on whose player has identity `id`.
pub open spec fn seat_index_from(players: Seq<PlayerSeat>, id: u128, k: int) -> Option<int>
    decreases players.len() - k,
{
    if k < 0 || k >= players.len() {
        None
    } else if players[k].id == id {
        Some(k)
    } else {
        seat_index_from(players, id, k + 1)
    }
}

/// The stable seat index of the player with identity `id`, if seated.
pub open spec fn seat_index(players: Seq<PlayerSeat>, id: u128) -> Option<int> {
    seat_index_from(players, id, 0)
}

/// A found seat index is in range and carries the identity looked for.
pub proof fn lemma_seat_index_props(players: Seq<PlayerSeat>, id: u128, k: int)
    ensures
        seat_index_from(players, id, k) is Some ==> {
            let i = seat_index_from(players, id, k)->Some_0;
            k <= i < players.len() && players[i].id == id
        },
    decreases players.len() - k,
{
    if 0 <= k < players.len() && players[k].id != id {
        lemma_seat_index_props(players, id, k + 1);
    }
}

/// The stable seat index of the player with identity `id`, if seated.
pub fn seat_of(r: &Room, id: u128) -> (s: Option<usize>)
    ensures
        match s {
            Some(i) => seat_index(r.players@, id) == Some(i as int) && r.seat_ok(i as int)
                && r.players@[i as int].id == id && forall|j: int|
                0 <= j < i ==> r.players@[j].id != id,
            None => seat_index(r.players@, id) is None && forall|j: int|
                0 <= j < r.players@.len() ==> r.players@[j].id != id,
        },
{
    let mut i: usize = 0;
    while i < r.players.len()
        invariant
            i <= r.players@.len(),
            forall|j: int| 0 <= j < i ==> r.players@[j].id != id,
            seat_index(r.players@, id) == seat_index_from(r.players@, id, i as int),
        decreases r.players@.len() - i,
    {
        if r.players[i].id == id {
            return Some(i);
        }
        i = i + 1;
    }
    None
}

/// All cards a seat holds, up cards first.
pub fn all_cards(p: &PlayerSeat) -> (v: Vec<Card>)
    ensures
        v@ == p.up_cards@ + p.down_cards@,
        v@.len() == p.up_cards@.len() + p.down_cards@.len(),
{
    let mut v: Vec<Card> = Vec::new();
    let mut i: usize = 0;
    while i < p.up_cards.len()
        invariant
            i <= p.up_cards@.len(),
            v@ =~= p.up_cards@.take(i as int),
        decreases p.up_cards@.len() - i,
    {
        v.push(p.up_cards[i]);
        i = i + 1;
    }
    let mut j: usize = 0;
    while j < p.down_cards.len()
        invariant
            j <= p.down_cards@.len(),
            v@ =~= p.up_cards@ + p.down_cards@.take(j as int),
        decreases p.down_cards@.len() - j,
    {
        v.push(p.down_cards[j]);
        j = j + 1;
    }
    assert(v@ =~= p.up_cards@ + p.down_cards@);
    v
}

/// The seat indexes that have not folded, in seat order.
pub fn alive_seats(r: &Room) -> (v: Vec<usize>)
    ensures
        v@.len() == alive_count(r.players@),
        forall|k: int| 0 <= k < v@.len() ==> r.seat_alive(#[trigger] v@[k] as int),
        forall|k1: int, k2: int| 0 <= k1 < k2 < v@.len() ==> v@[k1] < v@[k2],
        forall|i: int| r.seat_alive(i) ==> v@.contains(i as usize),
{
    let mut v: Vec<usize> = Vec::new();
    let mut i: usize = 0;
    while i < r.players.len()
        invariant
            i <= r.players@.len(),
            v@.len() == alive_count(r.players@.take(i as int)),
            forall|k: int| 0 <= k < v@.len() ==> r.seat_alive(#[trigger] v@[k] as int) && v@[k] < i,
            forall|k1: int, k2: int| 0 <= k1 < k2 < v@.len() ==> v@[k1] < v@[k2],
            forall|j: int| 0 <= j < i && r.seat_alive(j) ==> v@.contains(j as usize),
        decreases r.players@.len() - i,
    {
        assert(r.players@.take(i + 1).drop_last() =~= r.players@.take(i as int));
        let ghost vpre = v@;
        if !r.players[i].folded {
            v.push(i);
            assert forall|j: int| 0 <= j < i && r.seat_alive(j) implies v@.contains(
                j as usize,
            ) by {
                assert(vpre.contains(j as usize));
                let k = choose|k: int| 0 <= k < vpre.len() && vpre[k] == j as usize;
                assert(v@[k] == j as usize);
            }
            assert(v@.contains(i as usize)) by {
                assert(v@[v@.len() - 1] == i as usize);
            }
        }
        i = i + 1;
    }
    proof {
        assert(r.players@.take(r.players@.len() as int) =~= r.players@);
        lemma_sums_nonneg(r.players@);
    }
    v
}

/// The bet unit of the current round.
pub fn bet_size_for_round(r: &Room) -> (u: u64)
    ensures
        u == r.spec_bet_unit(),
{
    if r.round <= 2 {
        r.limit_small
    } else {
        r.limit_big
    }
}

/// Moves `amount` from a seat to the pot, clamped to the seat's available
/// chips: a seat can never go negative, and every chip removed from the seat
/// appears in the pot. This is the only operation that grows the pot.
pub fn commit(r: &mut Room, seat: usize, amount: u64)
    requires
        old(r).seat_ok(seat as int),
        old(r).money_ok(),
    ensures
        ({
            let s = old(r).players@[seat as int];
            let pay: int = if amount <= s.chips {
                amount as int
            } else {
                s.chips as int
            };
            &&& final(r).players@ == old(r).players@.update(
                seat as int,
                (PlayerSeat {
                    chips: (s.chips - pay) as u64,
                    committed_round: (s.committed_round + pay) as u64,
                    ..s
                }),
            )
            &&& final(r).pot == old(r).pot + pay
            &&& *final(r) == (Room { pot: final(r).pot, players: final(r).players, ..*old(r) })
            &&& chips_sum(final(r).players@) == chips_sum(old(r).players@) - pay
            &&& committed_sum(final(r).players@) == committed_sum(old(r).players@) + pay
            &&& alive_count(final(r).players@) == alive_count(old(r).players@)
            &&& final(r).wealth() == old(r).wealth()
            &&& final(r).money_ok()
        }),
{
    proof {
        lemma_sum_element(r.players@, seat as int);
        lemma_sums_nonneg(r.players@);
    }
    let chips = r.players[seat].chips;
    let pay = if amount <= chips {
        amount
    } else {
        chips
    };
    let ghost pre = r.players@;
    let p = &mut r.players[seat];
    let ghost s = *p;
    p.chips = p.chips - pay;
    p.committed_round = p.committed_round + pay;
    assert(r.players@ == pre.update(
        seat as int,
        (PlayerSeat {
            chips: (s.chips - pay) as u64,
            committed_round: (s.committed_round + pay) as u64,
            ..s
        }),
    ));
    r.pot = r.pot + pay;
    proof {
        lemma_sum_update(
            pre,
            seat as int,
            (PlayerSeat {
                chips: (s.chips - pay) as u64,
                committed_round: (s.committed_round + pay) as u64,
                ..s
            }),
        );
    }
}

} // verus!

verus! {

/// A positive alive count names a surviving seat.
pub proof fn lemma_alive_exists(players: Seq<PlayerSeat>)
    requires
        alive_count(players) > 0,
    ensures
        exists|j: int| 0 <= j < players.len() && !players[j].folded,
    decreases players.len(),
{
    if players.len() > 0 {
        if players.last().folded {
            lemma_alive_exists(players.drop_last());
            let j = choose|j: int|
                0 <= j < players.drop_last().len() && !players.drop_last()[j].folded;
            assert(!players[j].folded);
        } else {
            assert(!players[players.len() - 1].folded);
        }
    }
}

} // verus!

verus! {

/// How removing one seat moves the table sums.
pub proof fn lemma_sum_remove(players: Seq<PlayerSeat>, i: int)
    requires
        0 <= i < players.len(),
    ensures
        chips_sum(players.remove(i)) == chips_sum(players) - players[i].chips,
        committed_sum(players.remove(i)) == committed_sum(players) - players[i].committed_round,
    decreases players.len(),
{
    let u = players.remove(i);
    if i == players.len() - 1 {
        assert(u =~= players.drop_last());
    } else {
        assert(u.drop_last() =~= players.drop_last().remove(i));
        assert(u.last() == players.last());
        lemma_sum_remove(players.drop_last(), i);
    }
}

} // verus!
