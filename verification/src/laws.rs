//! What the operations of this crate are for, stated of their arguments and
//! results.
//!
//! A law that speaks of a function takes its arguments and any result that its
//! contract allows.

pub mod fetching;
pub mod negotiation;
pub mod packets;
pub mod paths;
pub mod requests;
pub mod serving;
pub mod texts;
pub mod window;
