//! Chord dispatch for button presses.
//!
//! Every press of a button starts one short-lived invocation that carries
//! the number of the button. Presses that follow each other within a
//! debounce window are combined into one ordered chord; the last
//! invocation of the burst looks the chord up in a command table and
//! launches the command it finds, once.
//!
//! The invocations agree through a shared region of memory that holds a
//! counter and the presses in their order of arrival. This crate holds
//! the rules of that agreement and of the command table; mapping the
//! region, locking it, sleeping and launching are left to the caller.

pub mod digits;
pub mod segment;
pub mod election;
pub mod table;
pub mod dispatch;
pub mod settings;
