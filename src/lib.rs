//! Committee key material, decryption shares and share merging for private
//! vote tallies.

pub mod codec;
pub mod merge;
pub mod share;
pub mod committee;
pub mod commands;
