//! The connection-side state a client keeps about its session: whether it is
//! connected and which stage of a game it is watching.

use vstd::prelude::*;

verus! {

/// The connection's lifecycle.
#[derive(Debug, Clone, Copy, PartialEq, Eq, Structural)]
pub enum ConnectionState {
    Disconnected,
    Connecting,
    InGame,
}

/// The stage of the game as a client presents it.
#[derive(Debug, Clone, Copy, PartialEq, Eq, Structural)]
pub enum GameStatus {
    WaitingForPlayers,
    Betting,
    Comments,
    Cards,
    ShowDown,
    GameOver,
}

/// A client session's state: its connection, and the game stage once it is
/// in one.
#[derive(Debug, Clone, Copy, PartialEq, Eq, Structural)]
pub struct AppState {
    pub connection: ConnectionState,
    pub game_status: Option<GameStatus>,
}

impl Default for AppState {
    fn default() -> (s: Self)
        ensures
            s.connection == ConnectionState::Disconnected,
            s.game_status is None,
    {
        AppState { connection: ConnectionState::Disconnected, game_status: None }
    }
}

impl AppState {
    /// A fresh, disconnected session.
    pub fn new() -> (s: Self)
        ensures
            s.connection == ConnectionState::Disconnected,
            s.game_status is None,
    {
        AppState { connection: ConnectionState::Disconnected, game_status: None }
    }

    /// A session mid-connection.
    pub fn connecting() -> (s: Self)
        ensures
            s.connection == ConnectionState::Connecting,
            s.game_status is None,
    {
        AppState { connection: ConnectionState::Connecting, game_status: None }
    }

    /// A session seated in a game at the given stage.
    pub fn in_game(status: GameStatus) -> (s: Self)
        ensures
            s.connection == ConnectionState::InGame,
            s.game_status == Some(status),
    {
        AppState { connection: ConnectionState::InGame, game_status: Some(status) }
    }

    /// Whether the session is in a game.
    pub fn is_connected(&self) -> (b: bool)
        ensures
            b == (self.connection is InGame),
    {
        matches!(self.connection, ConnectionState::InGame)
    }

    /// Whether the session is still connecting.
    pub fn is_connecting(&self) -> (b: bool)
        ensures
            b == (self.connection is Connecting),
    {
        matches!(self.connection, ConnectionState::Connecting)
    }

    /// Whether the session is disconnected.
    pub fn is_disconnected(&self) -> (b: bool)
        ensures
            b == (self.connection is Disconnected),
    {
        matches!(self.connection, ConnectionState::Disconnected)
    }

    /// Whether the session may raise a betting action right now.
    pub fn can_take_action(&self) -> (b: bool)
        ensures
            b == (self.game_status == Some(GameStatus::Betting)),
    {
        matches!(self.game_status, Some(GameStatus::Betting))
    }
}

} // verus!
