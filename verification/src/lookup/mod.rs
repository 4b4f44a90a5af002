//! Lookup tables for packet routing.

pub mod allocation;
pub mod laws;
pub mod maps;
pub mod model;
pub mod rate_limit;
pub mod table;

pub use allocation::{Allocation, AllocationId};
pub use rate_limit::{RateLimitError, RateLimiter};
pub use table::AllocationTable;
