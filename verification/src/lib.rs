//! Password-based authenticated encryption of byte streams.
//!
//! A long input is cut into fixed 500-byte chunks, and every chunk is
//! sealed on its own by an authenticated cipher under a nonce that binds
//! the chunk's position and whether it is the last one: reordered,
//! spliced or tampered chunks fail authentication, and a stream without
//! its final chunk is distinguishable from a complete one.  The key is
//! derived from a password by a memory-hard hashing function, and a
//! self-describing header carries everything decryption needs except the
//! password.
//!
//! The contracts of [`cipher`], [`hash`], [`header`] and [`command`]
//! state, over spec-level models of the sealed chunks and the derived
//! key, exactly which bytes each operation consumes and produces.

pub mod bytes;
pub mod cipher;
pub mod cli;
pub mod command;
pub mod error;
pub mod hash;
pub mod header;
pub mod io;
pub mod secret;
pub mod text;
