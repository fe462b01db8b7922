//! Cryptography on the WS63 hardware engines.
//!
//! Every operation is an engine that never touches a register itself. A caller performs
//! the commands that a step hands out, answers the question that comes with them, and
//! hands the answer to the next step, until the operation is over. What an operation does
//! for every sequence of answers is stated and proved here; performing the commands is
//! left to the firmware.
//!
//! [`Ws63Crypto`] accepts PBKDF2 derivations, hashes, MACs, AES blocks and entropy
//! requests one at a time; [`Ws63P256`] accepts P-256 operations.
pub mod abi;
pub mod big_endian;
pub mod bus;
pub mod bytes;
pub mod cache;
pub mod channel;
pub mod crypto;
pub mod diagnostics;
mod erase;
pub mod error;
pub mod gate;
pub mod laws;
pub mod layout;
pub mod limits;
pub mod padding;
pub mod pke;
pub mod rkp;
pub mod spacc_cipher;
pub mod spacc_hash;
pub mod spacc_hmac;
pub mod storage;

pub use crate::crypto::{Ws63Crypto, Ws63CryptoResources};
pub use crate::error::CryptoError;
pub use crate::limits::PollLimit;
pub use crate::padding::MAX_HASH_INPUT_BYTES;
pub use crate::pke::p256::{Ws63P256, Ws63P256Session};
pub use crate::rkp::RkpPollLimits;
pub use crate::spacc_cipher::SpaccCipherPollLimits;
pub use crate::spacc_hash::SpaccPollLimits;
pub use crate::storage::Ws63CryptoStorage;
