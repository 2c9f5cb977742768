//! Core of a personal-finance data manager: a password-protected export
//! container (magic/version header, argon2id key derivation, AES-256-GCM
//! payload) and a character-encoding resolver for bank-statement text files.
pub mod codec;
pub mod digest;
pub mod error;
pub mod profiles;
pub mod resolve;
pub mod scan;
pub mod textutil;
