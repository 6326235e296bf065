//! Where the deployed OmniLock script lives and which node to talk to.

use vstd::prelude::*;
use vstd::string::StringSliceAdditionalSpecFns;

use crate::keys::{decode_hex, hex_decodes_to, is_hex_of_len};

verus! {

/// The settings every command reads: the out point of the OmniLock
/// deployment and the node endpoints.
#[derive(Clone, Debug, PartialEq, Eq)]
pub struct ConfigContext {
    /// Hash of the transaction that deployed the OmniLock script.
    pub omnilock_tx_hash: [u8; 32],
    /// Index of the deployed cell among that transaction's outputs.
    pub omnilock_index: u32,
    /// CKB RPC URL.
    pub ckb_rpc: String,
    /// CKB indexer RPC URL.
    pub ckb_indexer: String,
}

/// A configuration entry that holds an unusable value.
#[derive(Clone, Copy, Debug, PartialEq, Eq, Structural)]
pub enum ConfigValueError {
    /// `omnilock_tx_hash` is not exactly 64 hex digits.
    TxHash,
    /// `omnilock_index` does not fit in 32 unsigned bits.
    Index,
}

impl ConfigContext {
    pub fn new(
        omnilock_tx_hash: [u8; 32],
        omnilock_index: u32,
        ckb_rpc: String,
        ckb_indexer: String,
    ) -> (r: Self)
        ensures
            r.omnilock_tx_hash == omnilock_tx_hash,
            r.omnilock_index == omnilock_index,
            r.ckb_rpc == ckb_rpc,
            r.ckb_indexer == ckb_indexer,
    {
        ConfigContext { omnilock_tx_hash, omnilock_index, ckb_rpc, ckb_indexer }
    }

    /// Builds the settings from the entries of a configuration file: the
    /// transaction hash as 64 hex digits without prefix, the index as read.
    pub fn from_entries(
        omnilock_tx_hash: &str,
        omnilock_index: i64,
        ckb_rpc: String,
        ckb_indexer: String,
    ) -> (r: Result<Self, ConfigValueError>)
        ensures
            !is_hex_of_len(omnilock_tx_hash.spec_bytes(), 32) ==> r == Err::<Self, ConfigValueError>(
                ConfigValueError::TxHash,
            ),
            is_hex_of_len(omnilock_tx_hash.spec_bytes(), 32) && !(0 <= omnilock_index
                <= u32::MAX) ==> r == Err::<Self, ConfigValueError>(ConfigValueError::Index),
            r matches Ok(c) ==> {
                &&& hex_decodes_to(omnilock_tx_hash.spec_bytes(), c.omnilock_tx_hash@)
                &&& c.omnilock_index == omnilock_index
                &&& c.ckb_rpc == ckb_rpc
                &&& c.ckb_indexer == ckb_indexer
            },
            is_hex_of_len(omnilock_tx_hash.spec_bytes(), 32) && 0 <= omnilock_index <= u32::MAX
                ==> r is Ok,
    {
        let hash = match decode_hex::<32>(omnilock_tx_hash.as_bytes()) {
            Some(h) => h,
            None => return Err(ConfigValueError::TxHash),
        };
        if omnilock_index < 0 || omnilock_index > u32::MAX as i64 {
            return Err(ConfigValueError::Index);
        }
        Ok(ConfigContext::new(hash, omnilock_index as u32, ckb_rpc, ckb_indexer))
    }
}

} // verus!
