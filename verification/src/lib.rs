//! Verified core of the Desert Tooling plugin.
use vstd::prelude::*;

pub mod gatherer;
pub mod ini;
pub mod keys;
pub mod looter;
pub mod overlay;
pub mod schema;
pub mod strings;
pub mod text;
pub mod utf8_cuts;

verus! {

} // verus!
