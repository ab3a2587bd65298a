//! SHPH: verified core logic of a VPN-first secure transport.
//!
//! The library holds the wire formats, validators, padding envelopes,
//! replay state, identity-record rules and planning helpers of SHPH. I/O,
//! async plumbing and platform integrations live in the companion crate.

pub mod error;
pub mod wire;
pub mod tun;
pub mod digest;
pub mod identity;
pub mod crypto;
pub mod text;
pub mod obfuscation;
pub mod ja4;
pub mod shroud2;
pub mod standards;
pub mod firewall;
pub mod transport;
pub mod rate_limit;
pub mod tui;
pub mod wintun;
pub mod mule_quota;
pub mod spool;
pub mod accept;
