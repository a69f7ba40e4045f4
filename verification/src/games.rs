//! Per-variant play rules shared with clients: which intents are legal for a
//! hand and a table in a given state, as data-driven checks.

use vstd::prelude::*;
use crate::room::GameVariant;
use crate::snapshot::{PublicRoom, PrivateHand};

verus! {

/// One in-game intent a client can raise.
#[derive(Debug, Clone, Copy, PartialEq, Eq, Structural)]
pub enum ClientAction {
    TakeCard,
    Stand,
    Fold,
    Check,
    Bet,
    Call,
    Raise,
}

/// The draw variant: play toward 7 and 27 at once, drawing or standing.
#[derive(Debug, Clone, Copy, PartialEq, Eq, Structural)]
pub struct SevenTwentySevenGame;

impl SevenTwentySevenGame {
    /// The variant this game implements.
    pub fn variant(&self) -> (v: GameVariant)
        ensures
            v == GameVariant::SevenTwentySeven,
    {
        GameVariant::SevenTwentySeven
    }

    /// Whether an intent is legal for this variant given the caller's
    /// private hand: drawing is allowed below the seven-card cap, standing
    /// always.
    pub fn is_action_valid(
        &self,
        _room: &PublicRoom,
        hand: &PrivateHand,
        action: ClientAction,
    ) -> (b: bool)
        ensures
            b == match action {
                ClientAction::TakeCard => hand.down_cards@.len() < 7,
                ClientAction::Stand => true,
                _ => false,
            },
    {
        match action {
            ClientAction::TakeCard => hand.down_cards.len() < 7,
            ClientAction::Stand => true,
            _ => false,
        }
    }
}

/// The four-hole-card community variant.
#[derive(Debug, Clone, Copy, PartialEq, Eq, Structural)]
pub struct OmahaGame;

impl OmahaGame {
    /// The variant this game implements.
    pub fn variant(&self) -> (v: GameVariant)
        ensures
            v == GameVariant::Omaha,
    {
        GameVariant::Omaha
    }

    /// Whether a betting intent is legal given the table's betting state:
    /// folding always, checking and betting only with no standing bet,
    /// calling only against one, raising only against one and under the cap.
    pub fn is_action_valid(
        &self,
        room: &PublicRoom,
        _hand: &PrivateHand,
        action: ClientAction,
    ) -> (b: bool)
        ensures
            b == match action {
                ClientAction::Fold => true,
                ClientAction::Check => room.current_bet == 0,
                ClientAction::Bet => room.current_bet == 0,
                ClientAction::Call => room.current_bet > 0,
                ClientAction::Raise => room.current_bet > 0 && room.raises_made < room.max_raises,
                _ => false,
            },
    {
        match action {
            ClientAction::Fold => true,
            ClientAction::Check => room.current_bet == 0,
            ClientAction::Bet => room.current_bet == 0,
            ClientAction::Call => room.current_bet > 0,
            ClientAction::Raise => room.current_bet > 0 && room.raises_made < room.max_raises,
            _ => false,
        }
    }
}

} // verus!
