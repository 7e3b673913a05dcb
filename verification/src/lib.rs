//! A Merkle–Damgård length-extension forgery against MACs of the form
//! `H(secret || message)`, for a hash family with a 256-bit internal state
//! (eight 32-bit words) and 64-byte blocks.
//!
//! Given a known message, its MAC, data to append and a guess of the secret's
//! length, [`length_extension_attack`] reconstructs the hash's internal state
//! from the MAC, computes the glue padding the original computation would have
//! used, resumes block compression over the appended data, and returns the
//! forged message together with its forged digest.

pub mod bytes;
pub mod codec;
pub mod compress;
pub mod forge;
pub mod padding;

pub use codec::{decode_state, encode_state, ForgeError, InternalState};
pub use compress::extend;
pub use forge::{length_extension_attack, ForgedResult};
pub use padding::compute_padding;
