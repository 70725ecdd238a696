//! The logic of a flush-and-reload byte oracle, with its proofs.
//!
//! The oracle recovers a byte of memory from the cache: it evicts the 256
//! page-sized slots of a probe buffer, lets a speculative read of the byte
//! touch the slot that stands for its value, and then times a read of every
//! slot. The fastest slot is the guess of the round, and a vote over several
//! rounds settles the byte.
//!
//! Evicting, reading and timing are done on the machine, by whoever uses
//! this library. What is here is everything around them:
//!
//! - [`probe_buffer`]: the addresses of the slots, and the checks made once
//!   at startup;
//! - [`status`]: the status word with which a transaction begins;
//! - [`timing`]: the choice of the fastest slot;
//! - [`oracle`]: the order of the steps of one round;
//! - [`vote`]: the vote over the rounds;
//! - [`scan`]: the range of bytes to recover, cut into lines;
//! - [`render`]: the text of a line;
//! - [`sim`]: a machine without noise, on which the oracle is always right.

pub mod oracle;
pub mod probe_buffer;
pub mod render;
pub mod scan;
pub mod sim;
pub mod status;
pub mod timing;
pub mod vote;
