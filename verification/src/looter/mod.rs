//! The auto-loot subsystem: the event payloads it forges, the recorder's cap
//! policy, the carcass multiplier's bookkeeping and the actor model it reads.
pub mod actors;
pub mod config;
pub mod dump;
pub mod events;
pub mod game;
pub mod gatherer;
pub mod hunting;
pub mod memory;
pub mod payload;
pub mod recorder;
pub mod run;
pub mod schema;
pub mod survey;
pub mod target;
pub mod tables;
