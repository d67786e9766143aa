pub mod auth;
pub mod error;
pub mod messages;
pub mod protocol;
pub mod reactions;
pub mod registry;
pub mod service;
pub mod store;
pub mod text;
pub mod users;
pub mod util;

use vstd::prelude::*;

verus! {

/// Seconds in the fixed session lifetime: thirty days.
pub const SESSION_TTL_SECONDS: i64 = 2592000;

} // verus!
