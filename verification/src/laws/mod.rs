//! What holds of whole runs of the engines.
pub mod answers;
pub mod busy;
pub mod cipher;
pub mod cipher_device;
pub mod hash;
pub mod hash_device;
pub mod pke;
pub mod pke_device;
pub mod requests;
pub mod rkp;
pub mod rkp_device;
pub mod standard;
pub mod trace;
