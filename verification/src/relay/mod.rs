//! Media relay.

pub mod effect;
pub mod engine;
pub mod laws;
pub mod rules;

pub use effect::{Datagram, Effect};
pub use engine::RelayEngine;
