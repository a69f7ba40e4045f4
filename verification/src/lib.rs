//! Authoritative engine for a multiplayer card-game table: card and deck
//! model, dual-target scoring, draw- and betting-phase turn engines, showdown
//! payout, and the phase/dealer lifecycle of one room.

pub mod betting;
pub mod cards;
pub mod client_state;
pub mod draw;
pub mod errors;
pub mod games;
pub mod laws;
pub mod lifecycle;
pub mod room;
pub mod scoring;
pub mod showdown;
pub mod snapshot;
pub mod turn;
