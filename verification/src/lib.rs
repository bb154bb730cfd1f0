//! A keystream generator built on a nonlinear feedback shift register of 288
//! byte-wide cells, with a stream cipher on top of it.
//!
//! An engine is made from an 80-byte key and an 80-byte IV, warmed up, and
//! then stepped: every step emits one keystream byte. Encrypting and
//! decrypting are the same operation, the exclusive or of the data with the
//! keystream, so the receiver needs an engine of its own, made from the same
//! key and IV.
//!
//! `register` defines the register as a sequence of bytes and says what a
//! step, a keystream and an encryption are. `engine` is the executable
//! generator and `cipher` the encryption on top of it, both proved against
//! those definitions. `laws` states what follows for every key, IV and
//! message.
//!
//! The generator is written for clarity, not for speed or hardening: it
//! manages no keys, authenticates nothing and takes no care of side channels.

pub mod cipher;
pub mod engine;
pub mod laws;
pub mod register;

pub use engine::{Trivium, TriviumError};
