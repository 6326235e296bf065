//! Authorization schemes: who may sign, and what a lock field looks like for
//! each of them.

use vstd::prelude::*;

use crate::crypto::{
    blake2b_256, blake2b_256_of, compressed_pubkey, compressed_pubkey_of, ethereum_message,
    ethereum_message_of, is_valid_secret, keccak160, keccak160_of, secret_is_valid,
    uncompressed_pubkey, uncompressed_pubkey_of,
};
use crate::error::ConfigError;

verus! {

/// Length of one recoverable signature, and so of one signature slot.
pub const SIGNATURE_LEN: usize = 65;

/// Identity flag of the public-key-hash scheme in the lock script arguments.
pub const FLAG_PUBKEY_HASH: u8 = 0;

/// Identity flag of the Ethereum-style scheme in the lock script arguments.
pub const FLAG_ETHEREUM: u8 = 1;

/// Identity flag of the multisig scheme in the lock script arguments.
pub const FLAG_MULTISIG: u8 = 6;

/// The first 20 bytes of the BLAKE2b-256 digest of `data`.
pub open spec fn blake160(data: Seq<u8>) -> Seq<u8> {
    blake2b_256_of(data).subrange(0, 20)
}

/// The hashes of a list, one after the other.
pub open spec fn concat_hashes(hs: Seq<[u8; 20]>) -> Seq<u8>
    decreases hs.len(),
{
    if hs.len() == 0 {
        Seq::empty()
    } else {
        concat_hashes(hs.drop_last()) + hs.last()@
    }
}

/// The bytes of each hash.
pub open spec fn members(hs: Seq<[u8; 20]>) -> Seq<Seq<u8>> {
    hs.map_values(|h: [u8; 20]| h@)
}

/// No hash occurs twice in `hs`.
pub open spec fn distinct_hashes(hs: Seq<Seq<u8>>) -> bool {
    forall|i: int, j: int| 0 <= i < hs.len() && 0 <= j < hs.len() && i != j ==> hs[i] != hs[j]
}

/// The first construction rule that a multisig configuration breaks, if any.
pub open spec fn config_check(hs: Seq<Seq<u8>>, require_first_n: u8, threshold: u8) -> Option<
    ConfigError,
> {
    if hs.len() == 0 {
        Some(ConfigError::EmptyIdentityList)
    } else if hs.len() > 255 {
        Some(ConfigError::TooManyIdentities)
    } else if !distinct_hashes(hs) {
        Some(ConfigError::DuplicateIdentity)
    } else if threshold as nat > hs.len() {
        Some(ConfigError::ThresholdTooLarge)
    } else if require_first_n > threshold {
        Some(ConfigError::RequireFirstNTooLarge)
    } else {
        None
    }
}

/// An M-of-N group of public-key hashes.
#[derive(Clone, Debug, PartialEq, Eq)]
pub struct MultisigConfig {
    pub sighash_addresses: Vec<[u8; 20]>,
    pub require_first_n: u8,
    pub threshold: u8,
}

impl MultisigConfig {
    pub open spec fn wf(&self) -> bool {
        config_check(members(self.sighash_addresses@), self.require_first_n, self.threshold)
            is None
    }

    /// The configuration bytes: version 0, require-first-n, threshold, the
    /// number of hashes, and the hashes.
    pub open spec fn witness_data_spec(&self) -> Seq<u8> {
        seq![0u8, self.require_first_n, self.threshold, self.sighash_addresses@.len() as u8]
            + concat_hashes(self.sighash_addresses@)
    }

    /// Builds a configuration, or names the first rule it breaks.
    pub fn new_with(sighash_addresses: Vec<[u8; 20]>, require_first_n: u8, threshold: u8) -> (r:
        Result<MultisigConfig, ConfigError>)
        ensures
            match r {
                Ok(c) => {
                    &&& config_check(members(sighash_addresses@), require_first_n, threshold)
                        is None
                    &&& c.sighash_addresses@ == sighash_addresses@
                    &&& c.require_first_n == require_first_n
                    &&& c.threshold == threshold
                },
                Err(e) => config_check(members(sighash_addresses@), require_first_n, threshold)
                    == Some(e),
            },
    {
        let n = sighash_addresses.len();
        if n == 0 {
            return Err(ConfigError::EmptyIdentityList);
        }
        if n > 255 {
            return Err(ConfigError::TooManyIdentities);
        }
        if !all_distinct(&sighash_addresses) {
            return Err(ConfigError::DuplicateIdentity);
        }
        if threshold as usize > n {
            return Err(ConfigError::ThresholdTooLarge);
        }
        if require_first_n > threshold {
            return Err(ConfigError::RequireFirstNTooLarge);
        }
        Ok(MultisigConfig { sighash_addresses, require_first_n, threshold })
    }

    /// The configuration bytes that open a multisig lock field.
    pub fn to_witness_data(&self) -> (r: Vec<u8>)
        requires
            self.wf(),
        ensures
            r@ == self.witness_data_spec(),
    {
        let hs = &self.sighash_addresses;
        let mut out: Vec<u8> = Vec::new();
        out.push(0u8);
        out.push(self.require_first_n);
        out.push(self.threshold);
        out.push(hs.len() as u8);
        let ghost head = out@;
        let mut i: usize = 0;
        while i < hs.len()
            invariant
                0 <= i <= hs@.len(),
                head == seq![0u8, self.require_first_n, self.threshold, hs@.len() as u8],
                out@ == head + concat_hashes(hs@.subrange(0, i as int)),
            decreases hs@.len() - i,
        {
            let h: [u8; 20] = hs[i];
            let mut k: usize = 0;
            while k < 20
                invariant
                    0 <= k <= 20,
                    h@.len() == 20,
                    out@ == head + concat_hashes(hs@.subrange(0, i as int)) + h@.subrange(
                        0,
                        k as int,
                    ),
                decreases 20 - k,
            {
                out.push(h[k]);
                proof {
                    assert(h@.subrange(0, k + 1) =~= h@.subrange(0, k as int).push(h@[k as int]));
                }
                k = k + 1;
            }
            proof {
                assert(hs@.subrange(0, i + 1).drop_last() =~= hs@.subrange(0, i as int));
                assert(h@.subrange(0, 20) =~= h@);
            }
            i = i + 1;
        }
        proof {
            assert(hs@.subrange(0, hs@.len() as int) =~= hs@);
        }
        out
    }

    /// The first 20 bytes of the BLAKE2b-256 digest of the configuration bytes.
    pub fn hash160(&self) -> (r: [u8; 20])
        requires
            self.wf(),
        ensures
            r@ == blake160(self.witness_data_spec()),
    {
        let data = self.to_witness_data();
        let digest = blake2b_256(data.as_slice());
        first_20(&digest)
    }
}

/// The length of the concatenated hashes.
pub proof fn lemma_concat_hashes_len(hs: Seq<[u8; 20]>)
    ensures
        concat_hashes(hs).len() == 20 * hs.len(),
    decreases hs.len(),
{
    if hs.len() > 0 {
        lemma_concat_hashes_len(hs.drop_last());
    }
}

/// Whether two hashes are equal, byte by byte.
fn same_hash(a: &[u8; 20], b: &[u8; 20]) -> (r: bool)
    ensures
        r == (a@ == b@),
{
    let mut k: usize = 0;
    while k < 20
        invariant
            0 <= k <= 20,
            a@.len() == 20,
            b@.len() == 20,
            forall|t: int| 0 <= t < k ==> a@[t] == b@[t],
        decreases 20 - k,
    {
        if a[k] != b[k] {
            return false;
        }
        k = k + 1;
    }
    assert(a@ =~= b@);
    true
}

/// Whether no hash occurs twice in the list.
fn all_distinct(hs: &Vec<[u8; 20]>) -> (r: bool)
    ensures
        r == distinct_hashes(members(hs@)),
{
    let n = hs.len();
    let mut i: usize = 0;
    while i < n
        invariant
            n == hs@.len(),
            0 <= i <= n,
            forall|a: int, b: int| 0 <= a < i && a < b < n ==> hs@[a]@ != hs@[b]@,
        decreases n - i,
    {
        let mut j: usize = i + 1;
        while j < n
            invariant
                n == hs@.len(),
                0 <= i < n,
                i + 1 <= j <= n,
                forall|a: int, b: int| 0 <= a < i && a < b < n ==> hs@[a]@ != hs@[b]@,
                forall|b: int| i < b < j ==> hs@[i as int]@ != hs@[b]@,
            decreases n - j,
        {
            if same_hash(&hs[i], &hs[j]) {
                assert(members(hs@)[i as int] == members(hs@)[j as int]);
                return false;
            }
            j = j + 1;
        }
        i = i + 1;
    }
    assert forall|a: int, b: int|
        0 <= a < hs@.len() && 0 <= b < hs@.len() && a != b implies members(hs@)[a] != members(
        hs@,
    )[b] by {
        if b < a {
            assert(hs@[b]@ != hs@[a]@);
        }
    }
    true
}

/// The first position of `h` in `hs`.
fn position_of_hash(hs: &Vec<[u8; 20]>, h: &[u8; 20]) -> (r: Option<usize>)
    ensures
        match r {
            Some(i) => i < hs@.len() && hs@[i as int]@ == h@,
            None => forall|t: int| 0 <= t < hs@.len() ==> hs@[t]@ != h@,
        },
{
    let mut i: usize = 0;
    while i < hs.len()
        invariant
            0 <= i <= hs@.len(),
            forall|t: int| 0 <= t < i ==> hs@[t]@ != h@,
        decreases hs@.len() - i,
    {
        if same_hash(&hs[i], h) {
            return Some(i);
        }
        i = i + 1;
    }
    None
}

/// The first 20 bytes of a digest.
fn first_20(d: &[u8; 32]) -> (r: [u8; 20])
    ensures
        r@ == d@.subrange(0, 20),
{
    let mut out = [0u8; 20];
    let mut k: usize = 0;
    while k < 20
        invariant
            0 <= k <= 20,
            out@.len() == 20,
            d@.len() == 32,
            forall|t: int| 0 <= t < k ==> out@[t] == d@[t],
        decreases 20 - k,
    {
        out[k] = d[k];
        k = k + 1;
    }
    assert(out@ =~= d@.subrange(0, 20));
    out
}

/// The blake160 hash of the compressed public key of a secret key, as the
/// public-key-hash and multisig schemes identify signers.
pub fn pubkey_hash(secret: &[u8; 32]) -> (r: Option<[u8; 20]>)
    ensures
        r is Some <==> is_valid_secret(secret@),
        r matches Some(h) ==> h@ == blake160(compressed_pubkey_of(secret@)),
{
    if !secret_is_valid(secret) {
        return None;
    }
    let pubkey = compressed_pubkey(secret);
    let digest = blake2b_256(pubkey.as_slice());
    Some(first_20(&digest))
}

/// The keccak160 hash of the uncompressed public key of a secret key, as the
/// Ethereum-style scheme identifies signers.
pub fn ethereum_address(secret: &[u8; 32]) -> (r: Option<[u8; 20]>)
    ensures
        r is Some <==> is_valid_secret(secret@),
        r matches Some(h) ==> h@ == keccak160_of(uncompressed_pubkey_of(secret@)),
{
    if !secret_is_valid(secret) {
        return None;
    }
    let pubkey = uncompressed_pubkey(secret);
    Some(keccak160(pubkey.as_slice()))
}

/// How a transaction is authorized.
#[derive(Clone, Debug, PartialEq, Eq)]
pub enum AuthScheme {
    /// By the blake160 hash of one secp256k1 public key.
    PubkeyHash([u8; 20]),
    /// By the keccak160 hash of one public key, as Ethereum derives addresses.
    Ethereum([u8; 20]),
    /// By an M-of-N group of public-key hashes.
    Multisig(MultisigConfig),
}

impl AuthScheme {
    pub open spec fn wf(&self) -> bool {
        match self {
            AuthScheme::Multisig(c) => c.wf(),
            _ => true,
        }
    }

    /// Number of 65-byte signature slots in the lock field.
    pub open spec fn slot_count_spec(&self) -> nat {
        match self {
            AuthScheme::Multisig(c) => c.sighash_addresses@.len(),
            _ => 1,
        }
    }

    /// The bytes that precede the signature slots once a signature is written.
    pub open spec fn header_spec(&self) -> Seq<u8> {
        match self {
            AuthScheme::Multisig(c) => c.witness_data_spec(),
            _ => Seq::empty(),
        }
    }

    /// Length of the header that precedes the signature slots.
    pub open spec fn header_len_spec(&self) -> nat {
        match self {
            AuthScheme::Multisig(c) => 4 + 20 * c.sighash_addresses@.len(),
            _ => 0,
        }
    }

    /// Length of the whole lock field.
    pub open spec fn lock_len_spec(&self) -> nat {
        self.header_len_spec() + 65 * self.slot_count_spec()
    }

    /// The identity hash that slot `i` belongs to.
    pub open spec fn target(&self, i: int) -> Seq<u8> {
        match self {
            AuthScheme::PubkeyHash(h) => h@,
            AuthScheme::Ethereum(h) => h@,
            AuthScheme::Multisig(c) => c.sighash_addresses@[i]@,
        }
    }

    /// The identity hash this scheme derives from a secret key.
    pub open spec fn key_hash_spec(&self, secret: Seq<u8>) -> Seq<u8> {
        match self {
            AuthScheme::Ethereum(_) => keccak160_of(uncompressed_pubkey_of(secret)),
            _ => blake160(compressed_pubkey_of(secret)),
        }
    }

    /// The key signs slot `i`.
    pub open spec fn matches_slot(&self, secret: Seq<u8>, i: int) -> bool {
        &&& is_valid_secret(secret)
        &&& 0 <= i < self.slot_count_spec()
        &&& self.key_hash_spec(secret) == self.target(i)
    }

    /// The key belongs to one of the scheme's identities.
    pub open spec fn matches_identity_spec(&self, secret: Seq<u8>) -> bool {
        exists|i: int| self.matches_slot(secret, i)
    }

    /// The digest that a key signs for a group whose signing digest is `digest`.
    pub open spec fn message_spec(&self, digest: Seq<u8>) -> Seq<u8> {
        match self {
            AuthScheme::Ethereum(_) => ethereum_message_of(digest),
            _ => digest,
        }
    }

    /// The 20-byte authorization content of the lock script arguments.
    pub open spec fn auth_content_spec(&self) -> Seq<u8> {
        match self {
            AuthScheme::PubkeyHash(h) => h@,
            AuthScheme::Ethereum(h) => h@,
            AuthScheme::Multisig(c) => blake160(c.witness_data_spec()),
        }
    }

    pub open spec fn flag_spec(&self) -> u8 {
        match self {
            AuthScheme::PubkeyHash(_) => FLAG_PUBKEY_HASH,
            AuthScheme::Ethereum(_) => FLAG_ETHEREUM,
            AuthScheme::Multisig(_) => FLAG_MULTISIG,
        }
    }

    /// The lock script arguments: identity flag, authorization content, and
    /// an empty mode-flag byte.
    pub open spec fn args_spec(&self) -> Seq<u8> {
        seq![self.flag_spec()] + self.auth_content_spec() + seq![0u8]
    }

    /// Two slots never belong to the same key.
    pub proof fn lemma_position_unique(&self, secret: Seq<u8>, i: int, j: int)
        requires
            self.wf(),
            self.matches_slot(secret, i),
            self.matches_slot(secret, j),
        ensures
            i == j,
    {
        if let AuthScheme::Multisig(c) = self {
            assert(distinct_hashes(members(c.sighash_addresses@)));
            assert(members(c.sighash_addresses@)[i] == c.sighash_addresses@[i]@);
            assert(members(c.sighash_addresses@)[j] == c.sighash_addresses@[j]@);
        }
    }

    pub fn slot_count(&self) -> (r: usize)
        requires
            self.wf(),
        ensures
            r == self.slot_count_spec(),
    {
        match self {
            AuthScheme::Multisig(c) => c.sighash_addresses.len(),
            _ => 1,
        }
    }

    pub fn header_len(&self) -> (r: usize)
        requires
            self.wf(),
        ensures
            r == self.header_len_spec(),
    {
        match self {
            AuthScheme::Multisig(c) => 4 + 20 * c.sighash_addresses.len(),
            _ => 0,
        }
    }

    pub fn lock_len(&self) -> (r: usize)
        requires
            self.wf(),
        ensures
            r == self.lock_len_spec(),
    {
        self.header_len() + SIGNATURE_LEN * self.slot_count()
    }

    /// The bytes that precede the signature slots once a signature is written.
    pub fn header(&self) -> (r: Vec<u8>)
        requires
            self.wf(),
        ensures
            r@ == self.header_spec(),
            r@.len() == self.header_len_spec(),
    {
        match self {
            AuthScheme::Multisig(c) => {
                proof {
                    lemma_concat_hashes_len(c.sighash_addresses@);
                }
                c.to_witness_data()
            },
            _ => Vec::new(),
        }
    }

    /// The identity hash this scheme derives from a secret key, if the key is valid.
    pub fn key_hash(&self, secret: &[u8; 32]) -> (r: Option<[u8; 20]>)
        ensures
            r is Some <==> is_valid_secret(secret@),
            r matches Some(h) ==> h@ == self.key_hash_spec(secret@),
    {
        match self {
            AuthScheme::Ethereum(_) => ethereum_address(secret),
            _ => pubkey_hash(secret),
        }
    }

    /// The slot that a key signs, or `None` when the key belongs to no identity of the scheme.
    pub fn signer_position(&self, secret: &[u8; 32]) -> (r: Option<usize>)
        requires
            self.wf(),
        ensures
            match r {
                Some(i) => self.matches_slot(secret@, i as int),
                None => !self.matches_identity_spec(secret@),
            },
    {
        let h = match self.key_hash(secret) {
            Some(h) => h,
            None => return None,
        };
        match self {
            AuthScheme::PubkeyHash(t) => {
                if same_hash(&h, t) {
                    Some(0)
                } else {
                    None
                }
            },
            AuthScheme::Ethereum(t) => {
                if same_hash(&h, t) {
                    Some(0)
                } else {
                    None
                }
            },
            AuthScheme::Multisig(c) => {
                let r = position_of_hash(&c.sighash_addresses, &h);
                assert forall|t: int| 0 <= t < c.sighash_addresses@.len() implies self.target(t)
                    == c.sighash_addresses@[t]@ by {}
                r
            },
        }
    }

    /// Whether a key belongs to one of the scheme's identities.
    pub fn matches_identity(&self, secret: &[u8; 32]) -> (r: bool)
        requires
            self.wf(),
        ensures
            r == self.matches_identity_spec(secret@),
    {
        self.signer_position(secret).is_some()
    }

    /// The digest that a key signs for a group whose signing digest is `digest`.
    pub fn signing_message(&self, digest: &[u8; 32]) -> (r: [u8; 32])
        ensures
            r@ == self.message_spec(digest@),
    {
        match self {
            AuthScheme::Ethereum(_) => ethereum_message(digest),
            _ => *digest,
        }
    }

    /// The lock script arguments that identify this scheme on chain.
    pub fn build_args(&self) -> (r: Vec<u8>)
        requires
            self.wf(),
        ensures
            r@ == self.args_spec(),
            r@.len() == 22,
    {
        let mut out: Vec<u8> = Vec::new();
        let content: [u8; 20] = match self {
            AuthScheme::PubkeyHash(h) => {
                out.push(FLAG_PUBKEY_HASH);
                *h
            },
            AuthScheme::Ethereum(h) => {
                out.push(FLAG_ETHEREUM);
                *h
            },
            AuthScheme::Multisig(c) => {
                out.push(FLAG_MULTISIG);
                c.hash160()
            },
        };
        let mut k: usize = 0;
        while k < 20
            invariant
                0 <= k <= 20,
                content@.len() == 20,
                content@ == self.auth_content_spec(),
                out@ == seq![self.flag_spec()] + content@.subrange(0, k as int),
            decreases 20 - k,
        {
            out.push(content[k]);
            proof {
                assert(content@.subrange(0, k + 1) =~= content@.subrange(0, k as int).push(
                    content@[k as int],
                ));
            }
            k = k + 1;
        }
        out.push(0u8);
        proof {
            assert(content@.subrange(0, 20) =~= content@);
            assert(out@ =~= self.args_spec());
        }
        out
    }
}

} // verus!
