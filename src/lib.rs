//! A durable first-in-first-out journal over an ordered key-value store:
//! the key codec and the cursor bookkeeping that keeps the queue consistent.

pub mod cursors;
pub mod error;
pub mod key;
