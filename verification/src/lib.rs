//! Passwordless login by proof of knowledge of a private key on the NIST P-256
//! curve, together with the client authentication that guards it.

pub mod client;
pub mod config;
pub mod curve;
pub mod encoding;
pub mod error;
pub mod login;
pub mod registry;
pub mod schnorr;
pub mod session;
