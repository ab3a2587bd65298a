//! Signed SHPH identity records and provider-independent discovery rules.
//!
//! Providers are untrusted distribution mechanisms: a record is useful only
//! after this module checks its structure, SHPH's own signature and its
//! freshness.

pub mod types;
pub mod rules;
pub mod record;
pub mod canonical;
pub mod verify;
pub mod sign;
pub mod resolve;
pub mod hex;
pub mod order;
