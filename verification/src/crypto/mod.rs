//! Keys, codes and sessions.

pub mod dm;
pub mod megolm;
pub mod mnemonic;
pub mod passphrase;
pub mod pqc;
pub mod primitives;
pub mod sas;
pub mod session_store;
