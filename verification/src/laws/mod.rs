//! What the server owes for every datagram, said of the datagram, the state
//! before and the state after.

pub mod answers;
pub mod channel;
pub mod checks;
pub mod delivery;
pub mod formats;
pub mod grants;
pub mod lifetimes;
pub mod media;
pub mod nonces;
pub mod requests;
pub mod state;
pub mod terms;
