//! Reasons an intent can be rejected. Every rejection is reported to the
//! issuing player only and leaves the room unchanged.

use vstd::prelude::*;

verus! {

/// Why a player intent was rejected. Each variant carries a distinct,
/// human-readable reason through `reason`.
#[derive(Debug, Clone, Copy, PartialEq, Eq, Structural)]
pub enum ActionError {
    /// The caller is not seated in this room.
    NotSeated,
    /// The action is not valid in the room's current phase.
    WrongPhase,
    /// A draw action arrived during the betting sub-phase.
    InBetting,
    /// A betting action arrived during the draw sub-phase.
    NotInBetting,
    /// It is another seat's turn.
    NotYourTurn,
    /// The caller already folded this hand.
    AlreadyFolded,
    /// The caller already stands and may not draw again.
    AlreadyStanding,
    /// The caller already holds the variant's maximum card count.
    MaxCardsReached,
    /// No deck is in play.
    DeckMissing,
    /// Checking is illegal while a bet stands.
    CannotCheckFacingBet,
    /// Betting is illegal while a bet already stands.
    BetAlreadyMade,
    /// Raising is illegal while no bet stands.
    NoBetToRaise,
    /// The raise cap for this betting round is reached.
    RaiseCapReached,
    /// Calling is illegal while no bet stands.
    NoBetToCall,
    /// Starting a hand takes at least two seated players.
    NeedTwoPlayers,
    /// Starting a hand takes every seated player ready.
    NotAllReady,
    /// Electing to start takes at least four seated players.
    NeedFourPlayers,
    /// Only the delegated dealer may do this.
    NotDealer,
    /// The proposed dealer is not seated in this room.
    DealerNotSeated,
    /// The table name is empty.
    TableNameEmpty,
    /// Table stakes must all be greater than zero.
    TableConfigZero,
    /// The big limit must exceed the small limit.
    TableLimitOrder,
    /// The stakes are too large for the raise cap.
    TableStakesTooLarge,
    /// No game is currently scheduled.
    NothingScheduled,
    /// The caller has already checked in.
    AlreadyCheckedIn,
    /// The table holds its maximum number of players.
    TableFull,
    /// Seats cannot be removed while a hand is in play.
    HandInPlay,
}

impl ActionError {
    /// The human-readable reason reported to the issuing player: one fixed,
    /// distinct message per variant.
    pub fn reason(&self) -> (s: &'static str)
        ensures
            s@ == match *self {
                ActionError::NotSeated => "You are not seated."@,
                ActionError::WrongPhase => "Action not allowed in the current phase."@,
                ActionError::InBetting => "Currently in betting."@,
                ActionError::NotInBetting => "Not in betting phase."@,
                ActionError::NotYourTurn => "Not your turn."@,
                ActionError::AlreadyFolded => "Player folded."@,
                ActionError::AlreadyStanding => "Player already standing."@,
                ActionError::MaxCardsReached => "Player already has max cards."@,
                ActionError::DeckMissing => "No deck in play."@,
                ActionError::CannotCheckFacingBet => "Cannot check facing a bet."@,
                ActionError::BetAlreadyMade => "A bet already stands; call or raise."@,
                ActionError::NoBetToRaise => "Cannot raise when no bet exists."@,
                ActionError::RaiseCapReached => "Maximum raises reached."@,
                ActionError::NoBetToCall => "No bet to call."@,
                ActionError::NeedTwoPlayers => "Need at least 2 players to start."@,
                ActionError::NotAllReady => "All players must be ready."@,
                ActionError::NeedFourPlayers => "Minimum 4 players required to start game."@,
                ActionError::NotDealer => "Only the designated dealer can do that."@,
                ActionError::DealerNotSeated => "Proposed dealer is not in this room."@,
                ActionError::TableNameEmpty => "Table name cannot be empty"@,
                ActionError::TableConfigZero => "Table configuration values must be greater than 0"@,
                ActionError::TableLimitOrder => "Big limit must be greater than small limit"@,
                ActionError::TableStakesTooLarge => "Table stakes are too large for the raise cap"@,
                ActionError::NothingScheduled => "No game is currently scheduled."@,
                ActionError::AlreadyCheckedIn => "You have already checked in."@,
                ActionError::TableFull => "Table is full."@,
                ActionError::HandInPlay => "Cannot do that while a hand is in play."@,
            },
            s@.len() > 0,
    {
        let s = match self {
            ActionError::NotSeated => "You are not seated.",
            ActionError::WrongPhase => "Action not allowed in the current phase.",
            ActionError::InBetting => "Currently in betting.",
            ActionError::NotInBetting => "Not in betting phase.",
            ActionError::NotYourTurn => "Not your turn.",
            ActionError::AlreadyFolded => "Player folded.",
            ActionError::AlreadyStanding => "Player already standing.",
            ActionError::MaxCardsReached => "Player already has max cards.",
            ActionError::DeckMissing => "No deck in play.",
            ActionError::CannotCheckFacingBet => "Cannot check facing a bet.",
            ActionError::BetAlreadyMade => "A bet already stands; call or raise.",
            ActionError::NoBetToRaise => "Cannot raise when no bet exists.",
            ActionError::RaiseCapReached => "Maximum raises reached.",
            ActionError::NoBetToCall => "No bet to call.",
            ActionError::NeedTwoPlayers => "Need at least 2 players to start.",
            ActionError::NotAllReady => "All players must be ready.",
            ActionError::NeedFourPlayers => "Minimum 4 players required to start game.",
            ActionError::NotDealer => "Only the designated dealer can do that.",
            ActionError::DealerNotSeated => "Proposed dealer is not in this room.",
            ActionError::TableNameEmpty => "Table name cannot be empty",
            ActionError::TableConfigZero => "Table configuration values must be greater than 0",
            ActionError::TableLimitOrder => "Big limit must be greater than small limit",
            ActionError::TableStakesTooLarge => "Table stakes are too large for the raise cap",
            ActionError::NothingScheduled => "No game is currently scheduled.",
            ActionError::AlreadyCheckedIn => "You have already checked in.",
            ActionError::TableFull => "Table is full.",
            ActionError::HandInPlay => "Cannot do that while a hand is in play.",
        };
        proof {
            reveal_strlit("You are not seated.");
            reveal_strlit("Action not allowed in the current phase.");
            reveal_strlit("Currently in betting.");
            reveal_strlit("Not in betting phase.");
            reveal_strlit("Not your turn.");
            reveal_strlit("Player folded.");
            reveal_strlit("Player already standing.");
            reveal_strlit("Player already has max cards.");
            reveal_strlit("No deck in play.");
            reveal_strlit("Cannot check facing a bet.");
            reveal_strlit("A bet already stands; call or raise.");
            reveal_strlit("Cannot raise when no bet exists.");
            reveal_strlit("Maximum raises reached.");
            reveal_strlit("No bet to call.");
            reveal_strlit("Need at least 2 players to start.");
            reveal_strlit("All players must be ready.");
            reveal_strlit("Minimum 4 players required to start game.");
            reveal_strlit("Only the designated dealer can do that.");
            reveal_strlit("Proposed dealer is not in this room.");
            reveal_strlit("Table name cannot be empty");
            reveal_strlit("Table configuration values must be greater than 0");
            reveal_strlit("Big limit must be greater than small limit");
            reveal_strlit("Table stakes are too large for the raise cap");
            reveal_strlit("No game is currently scheduled.");
            reveal_strlit("You have already checked in.");
            reveal_strlit("Table is full.");
            reveal_strlit("Cannot do that while a hand is in play.");
        }
        s
    }
}

} // verus!
