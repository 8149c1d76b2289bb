//! On-ledger agent identity and trust state machine: record codec, trust
//! tiers, content-derived addresses and the instruction processor.

pub mod address;
pub mod codec;
pub mod error;
pub mod ledger;
pub mod processor;
pub mod tier;
