//! The parts of an address that the multisig configuration reads: the lock
//! script it denotes.

use vstd::prelude::*;

use crate::error::ConfigError;
use crate::scheme::{config_check, members, MultisigConfig};

verus! {

/// Code hash of the standard secp256k1/blake160 sighash lock.
pub const SIGHASH_TYPE_HASH: [u8; 32] = [
    0x9b, 0xd7, 0xe0, 0x6f, 0x3e, 0xcf, 0x4b, 0xe0, 0xf2, 0xfc, 0xd2, 0x18, 0x8b, 0x23, 0xf1, 0xb9,
    0xfc, 0xc8, 0x8e, 0x5d, 0x4b, 0x65, 0xa8, 0x63, 0x7b, 0x17, 0x72, 0x3b, 0xbd, 0xa3, 0xcc, 0xe8,
];

/// How a script's code hash is matched against cells.
#[derive(Clone, Copy, Debug, PartialEq, Eq, Structural)]
pub enum ScriptHashType {
    Data,
    Type,
    Data1,
}

/// A lock script, as an address encodes it.
#[derive(Clone, Debug, PartialEq, Eq)]
pub struct LockScript {
    pub code_hash: [u8; 32],
    pub hash_type: ScriptHashType,
    pub args: Vec<u8>,
}

impl LockScript {
    /// The standard sighash lock of one public-key hash.
    pub open spec fn is_sighash(&self) -> bool {
        &&& self.code_hash@ == SIGHASH_TYPE_HASH@
        &&& self.hash_type == ScriptHashType::Type
        &&& self.args@.len() == 20
    }
}

/// The position of the first lock script that is not a sighash lock.
pub open spec fn first_non_sighash(ls: Seq<LockScript>, i: int) -> bool {
    &&& 0 <= i < ls.len()
    &&& !ls[i].is_sighash()
    &&& forall|t: int| 0 <= t < i ==> ls[t].is_sighash()
}

/// The arguments of each lock script.
pub open spec fn lock_args(ls: Seq<LockScript>) -> Seq<Seq<u8>> {
    ls.map_values(|l: LockScript| l.args@)
}

fn is_sighash_code_hash(h: &[u8; 32]) -> (r: bool)
    ensures
        r == (h@ == SIGHASH_TYPE_HASH@),
{
    let expected = SIGHASH_TYPE_HASH;
    let mut k: usize = 0;
    while k < 32
        invariant
            0 <= k <= 32,
            expected == SIGHASH_TYPE_HASH,
            h@.len() == 32,
            expected@.len() == 32,
            forall|t: int| 0 <= t < k ==> h@[t] == expected@[t],
        decreases 32 - k,
    {
        if h[k] != expected[k] {
            return false;
        }
        k = k + 1;
    }
    assert(h@ =~= expected@);
    true
}

impl LockScript {
    /// Whether this is the standard sighash lock of one public-key hash.
    pub fn is_sighash_lock(&self) -> (r: bool)
        ensures
            r == self.is_sighash(),
    {
        is_sighash_code_hash(&self.code_hash) && self.hash_type == ScriptHashType::Type
            && self.args.len() == 20
    }
}

fn to_hash160(args: &Vec<u8>) -> (r: [u8; 20])
    requires
        args@.len() == 20,
    ensures
        r@ == args@,
{
    let mut out = [0u8; 20];
    let mut k: usize = 0;
    while k < 20
        invariant
            0 <= k <= 20,
            args@.len() == 20,
            out@.len() == 20,
            forall|t: int| 0 <= t < k ==> out@[t] == args@[t],
        decreases 20 - k,
    {
        out[k] = args[k];
        k = k + 1;
    }
    assert(out@ =~= args@);
    out
}

/// Builds a multisig configuration from the lock scripts of sighash
/// addresses. Fails on an empty list, on the first lock script that is not
/// a sighash lock, and then on the first construction rule broken.
pub fn build_multisig_config(sighash_address: &Vec<LockScript>, require_first_n: u8, threshold: u8) -> (r:
    Result<MultisigConfig, ConfigError>)
    ensures
        sighash_address@.len() == 0 ==> r == Err::<MultisigConfig, ConfigError>(
            ConfigError::EmptyIdentityList,
        ),
        forall|i: int|
            first_non_sighash(sighash_address@, i) && sighash_address@.len() > 0 ==> r == Err::<
                MultisigConfig,
                ConfigError,
            >(ConfigError::NotSighashAddress(i as usize)),
        (forall|t: int| 0 <= t < sighash_address@.len() ==> sighash_address@[t].is_sighash())
            ==> match r {
            Ok(c) => {
                &&& config_check(lock_args(sighash_address@), require_first_n, threshold) is None
                &&& members(c.sighash_addresses@) == lock_args(sighash_address@)
                &&& c.require_first_n == require_first_n
                &&& c.threshold == threshold
            },
            Err(e) => config_check(lock_args(sighash_address@), require_first_n, threshold)
                == Some(e),
        },
{
    if sighash_address.len() == 0 {
        return Err(ConfigError::EmptyIdentityList);
    }
    let mut hashes: Vec<[u8; 20]> = Vec::new();
    let mut i: usize = 0;
    while i < sighash_address.len()
        invariant
            0 <= i <= sighash_address@.len(),
            forall|t: int| 0 <= t < i ==> sighash_address@[t].is_sighash(),
            hashes@.len() == i,
            members(hashes@) == lock_args(sighash_address@).subrange(0, i as int),
        decreases sighash_address@.len() - i,
    {
        if !sighash_address[i].is_sighash_lock() {
            proof {
                assert forall|j: int| first_non_sighash(sighash_address@, j) implies j == i by {
                    if j < i {
                    } else if j > i {
                        assert(sighash_address@[i as int].is_sighash());
                    }
                }
            }
            return Err(ConfigError::NotSighashAddress(i));
        }
        let h = to_hash160(&sighash_address[i].args);
        let ghost prev = hashes@;
        hashes.push(h);
        proof {
            assert(hashes@ == prev.push(h));
            assert forall|k: int| 0 <= k < i + 1 implies members(hashes@)[k] == lock_args(
                sighash_address@,
            ).subrange(0, i + 1)[k] by {
                if k < i {
                    assert(members(prev)[k] == lock_args(sighash_address@).subrange(0, i as int)[k]);
                }
            }
            assert(members(hashes@) =~= lock_args(sighash_address@).subrange(0, i + 1));
        }
        i = i + 1;
    }
    proof {
        assert(lock_args(sighash_address@).subrange(0, sighash_address@.len() as int) =~= lock_args(sighash_address@));
        assert forall|j: int| !first_non_sighash(sighash_address@, j) by {}
    }
    MultisigConfig::new_with(hashes, require_first_n, threshold)
}

} // verus!
