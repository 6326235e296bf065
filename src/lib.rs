//! Off-chain construction and incremental authorization of OmniLock
//! witnesses: the witness-lock layout, the authorization schemes, the
//! signing round that fills signature slots, and the tracker that reports
//! how many slots are still empty.

pub mod crypto;
pub mod error;
pub mod scheme;
pub mod codec;
pub mod progress;
pub mod coordinator;
pub mod keys;
pub mod address;
pub mod config;
