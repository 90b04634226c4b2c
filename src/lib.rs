//! One-time authentication codes (HOTP and TOTP) and a password-protected
//! envelope for secrets at rest, with their behaviour stated as contracts.

pub mod account;
pub mod crypto;
pub mod encoding;
pub mod error;
pub mod otp;
pub mod vault;
