//! A password-protected key-value vault: the encrypted record layer.
//!
//! Records are addressed by a hex digest of their logical key and stored as
//! authenticated envelopes sealed under a key taken from a password hash.
pub mod error;
pub mod codec;
pub mod credential;
pub mod index;
pub mod vault;
