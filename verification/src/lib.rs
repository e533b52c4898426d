//! The core of a peer-to-peer encrypted chat.

pub mod app;
pub mod bytes;
pub mod clock;
pub mod config;
pub mod crypto;
pub mod error;
pub mod files;
pub mod identity;
pub mod strmap;
pub mod sums;
pub mod text;
