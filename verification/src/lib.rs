//! Rules for two maintenance runs against a key-value store: removing keys
//! whose time to live is at or below a limit, and seeding synthetic keys.
//!
//! The crate holds the decisions only. A driver performs the store calls that
//! the runs ask for and hands the replies back.
//!
//! - [`key`]: the segments of a key and the marker of managed keys.
//! - [`decision`]: what becomes of one key.
//! - [`order`]: the order in which keys are visited.
//! - [`cleanup`]: the cleanup run, one store call at a time.
//! - [`store`]: what a whole cleanup run does to a store.
//! - [`token`]: the identifier at the end of a seeded key.
//! - [`seed`]: the seeding run, one draw and one write at a time.
//! - [`writes`]: what a whole seeding run writes.

pub mod cleanup;
pub mod decision;
pub mod key;
pub mod order;
pub mod seed;
pub mod store;
pub mod token;
pub mod writes;
