//! TURN protocol handling.

pub mod auth;
pub mod encode;
pub mod handler;
pub mod laws;
pub mod message;
pub mod rules;
pub mod wire_laws;

pub use auth::TurnAuth;
pub use handler::TurnHandler;
pub use message::{TurnError, TurnErrorCode};
