//! Card identity (rank, suit, face orientation) and the shuffled 52-card
//! draw source that one hand of play consumes.

use vstd::prelude::*;

verus! {

/// One of the four suits. Suits never affect scoring.
#[derive(Debug, Clone, Copy, PartialEq, Eq, Hash, Structural)]
pub enum Suit {
    Clubs,
    Diamonds,
    Hearts,
    Spades,
}

/// Card rank. Ranks have a numeric ordering for comparisons but no game
/// meaning beyond scoring.
#[derive(Debug, Clone, Copy, PartialEq, Eq, Hash, Structural)]
pub enum Rank {
    Two,
    Three,
    Four,
    Five,
    Six,
    Seven,
    Eight,
    Nine,
    Ten,
    Jack,
    Queen,
    King,
    Ace,
}

/// A playing card. Immutable once drawn; `face_up` may change only at
/// showdown reveal.
#[derive(Debug, Clone, Copy, PartialEq, Eq, Structural)]
pub struct Card {
    pub rank: Rank,
    pub suit: Suit,
    pub face_up: bool,
}

/// The suit dealt at block `i` of the ordered deck (blocks of 13 cards).
pub open spec fn suit_of_index(i: int) -> Suit {
    if i == 0 {
        Suit::Clubs
    } else if i == 1 {
        Suit::Diamonds
    } else if i == 2 {
        Suit::Hearts
    } else {
        Suit::Spades
    }
}

/// The rank dealt at offset `i` inside one 13-card block of the ordered deck.
pub open spec fn rank_of_index(i: int) -> Rank {
    if i == 0 {
        Rank::Two
    } else if i == 1 {
        Rank::Three
    } else if i == 2 {
        Rank::Four
    } else if i == 3 {
        Rank::Five
    } else if i == 4 {
        Rank::Six
    } else if i == 5 {
        Rank::Seven
    } else if i == 6 {
        Rank::Eight
    } else if i == 7 {
        Rank::Nine
    } else if i == 8 {
        Rank::Ten
    } else if i == 9 {
        Rank::Jack
    } else if i == 10 {
        Rank::Queen
    } else if i == 11 {
        Rank::King
    } else {
        Rank::Ace
    }
}

/// The full 52-card deck in its canonical order, before shuffling: thirteen
/// ranks for each suit, every card face down.
pub open spec fn full_deck() -> Seq<Card> {
    Seq::new(52, |i: int| Card { rank: rank_of_index(i % 13), suit: suit_of_index(i / 13), face_up: false })
}

/// The same card turned face down: card identity regardless of orientation.
pub open spec fn card_face(c: Card) -> Card {
    Card { rank: c.rank, suit: c.suit, face_up: false }
}

/// A sequence of cards, all turned face down.
pub open spec fn faces(cards: Seq<Card>) -> Seq<Card> {
    cards.map_values(|c: Card| card_face(c))
}

/// An owned, shuffled draw source holding the cards not yet dealt.
#[derive(Debug, Clone)]
pub struct Deck {
    pub cards: Vec<Card>,
}

/// Relies on rand's `SliceRandom::shuffle` (a Fisher-Yates shuffle built from
/// in-place swaps): it permutes the elements of the slice and neither adds,
/// drops nor alters any.
#[verifier::external_body]
fn shuffle_in_place(cards: &mut Vec<Card>)
    ensures
        final(cards)@.to_multiset() == old(cards)@.to_multiset(),
        final(cards)@.len() == old(cards)@.len(),
{
    rand::seq::SliceRandom::shuffle(cards.as_mut_slice(), &mut rand::thread_rng());
}

/// The exec mirror of `full_deck()[i]`.
fn card_of_index(i: usize) -> (c: Card)
    requires
        i < 52,
    ensures
        c == full_deck()[i as int],
{
    let block: usize = i / 13;
    let off: usize = i % 13;
    let suit = if block == 0 {
        Suit::Clubs
    } else if block == 1 {
        Suit::Diamonds
    } else if block == 2 {
        Suit::Hearts
    } else {
        Suit::Spades
    };
    let rank = if off == 0 {
        Rank::Two
    } else if off == 1 {
        Rank::Three
    } else if off == 2 {
        Rank::Four
    } else if off == 3 {
        Rank::Five
    } else if off == 4 {
        Rank::Six
    } else if off == 5 {
        Rank::Seven
    } else if off == 6 {
        Rank::Eight
    } else if off == 7 {
        Rank::Nine
    } else if off == 8 {
        Rank::Ten
    } else if off == 9 {
        Rank::Jack
    } else if off == 10 {
        Rank::Queen
    } else if off == 11 {
        Rank::King
    } else {
        Rank::Ace
    };
    Card { rank, suit, face_up: false }
}

impl Deck {
    /// A freshly shuffled deck: 52 cards, exactly the 52 cards of the
    /// canonical deck in some order, all face down until drawn.
    pub fn standard_shuffled() -> (d: Deck)
        ensures
            d.cards@.len() == 52,
            d.cards@.to_multiset() == full_deck().to_multiset(),
    {
        let mut cards: Vec<Card> = Vec::new();
        let mut i: usize = 0;
        while i < 52
            invariant
                i <= 52,
                cards@ =~= full_deck().take(i as int),
            decreases 52 - i,
        {
            cards.push(card_of_index(i));
            i = i + 1;
        }
        assert(cards@ =~= full_deck());
        shuffle_in_place(&mut cards);
        Deck { cards }
    }

    /// Pops one card from the draw source, stamping its orientation; returns
    /// `None` exactly when the deck is exhausted.
    pub fn draw(&mut self, face_up: bool) -> (r: Option<Card>)
        ensures
            old(self).cards@.len() == 0 ==> r is None && final(self).cards@ == old(self).cards@,
            old(self).cards@.len() > 0 ==> {
                let last = old(self).cards@.last();
                &&& r == Some(Card { rank: last.rank, suit: last.suit, face_up })
                &&& final(self).cards@ == old(self).cards@.drop_last()
            },
    {
        match self.cards.pop() {
            None => None,
            Some(c) => Some(Card { rank: c.rank, suit: c.suit, face_up }),
        }
    }
}

} // verus!
