//! A pari-mutuel binary-outcome prediction market.
//!
//! Administrators open timed rounds tied to an external price; participants
//! stake funds on one of two directions before a lock deadline; once a round
//! resolves, losers' stakes fund winners' payouts net of a treasury fee.
//! Every operation is a deterministic transition of a single [`state::State`]
//! value, so a host can replay it byte-for-byte.

pub mod error;
pub mod execute;
pub mod instantiate;
pub mod msg;
pub mod query;
pub mod state;
