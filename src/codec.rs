//! The witness-lock layout: an optional header followed by fixed-width
//! signature slots, and its all-zero placeholder.

use vstd::prelude::*;

use crate::error::SignError;
use crate::scheme::AuthScheme;

verus! {

/// The all-zero lock field of the length the scheme prescribes.
pub open spec fn placeholder_spec(scheme: AuthScheme) -> Seq<u8> {
    Seq::new(scheme.lock_len_spec(), |i: int| 0u8)
}

/// Byte offset of slot `i` in a lock field.
pub open spec fn slot_offset(scheme: AuthScheme, i: int) -> int {
    scheme.header_len_spec() + 65 * i
}

/// Slot `i` of a lock field.
pub open spec fn slot_of(scheme: AuthScheme, lock: Seq<u8>, i: int) -> Seq<u8> {
    lock.subrange(slot_offset(scheme, i), slot_offset(scheme, i) + 65)
}

/// Header and signature area of a lock field, when its length is the one
/// the scheme prescribes.
pub open spec fn decode_spec(scheme: AuthScheme, bytes: Seq<u8>) -> Option<(Seq<u8>, Seq<u8>)> {
    if bytes.len() == scheme.lock_len_spec() {
        let h = scheme.header_len_spec() as int;
        Some((bytes.subrange(0, h), bytes.subrange(h, bytes.len() as int)))
    } else {
        None
    }
}

/// A decoded lock field.
#[derive(Clone, Debug, PartialEq, Eq)]
pub struct WitnessLock {
    /// The bytes before the first signature slot.
    pub header: Vec<u8>,
    /// The signature slots, 65 bytes each, in identity order.
    pub signatures: Vec<u8>,
}

impl WitnessLock {
    /// The lock field this value encodes to.
    pub open spec fn encoded(&self) -> Seq<u8> {
        self.header@ + self.signatures@
    }

    /// The header and signature area have the lengths the scheme prescribes.
    pub open spec fn fits(&self, scheme: AuthScheme) -> bool {
        &&& self.header@.len() == scheme.header_len_spec()
        &&& self.signatures@.len() == 65 * scheme.slot_count_spec()
    }
}

/// The offset of a slot lies inside the lock field.
pub proof fn lemma_slot_in_bounds(scheme: AuthScheme, i: int)
    requires
        0 <= i < scheme.slot_count_spec(),
    ensures
        scheme.header_len_spec() <= slot_offset(scheme, i),
        slot_offset(scheme, i) + 65 <= scheme.lock_len_spec(),
{
    let n = scheme.slot_count_spec() as int;
    assert(65 * i + 65 <= 65 * n) by (nonlinear_arith)
        requires
            0 <= i < n,
    ;
}

/// Distinct slots do not overlap.
pub proof fn lemma_slots_disjoint(scheme: AuthScheme, i: int, j: int)
    requires
        i != j,
    ensures
        slot_offset(scheme, i) + 65 <= slot_offset(scheme, j) || slot_offset(scheme, j) + 65
            <= slot_offset(scheme, i),
{
    if i < j {
        assert(65 * i + 65 <= 65 * j) by (nonlinear_arith)
            requires
                i < j,
        ;
    } else {
        assert(65 * j + 65 <= 65 * i) by (nonlinear_arith)
            requires
                j < i,
        ;
    }
}

/// The bytes of `bytes` from `from` up to `to`.
fn copy_range(bytes: &[u8], from: usize, to: usize) -> (r: Vec<u8>)
    requires
        from <= to <= bytes@.len(),
    ensures
        r@ == bytes@.subrange(from as int, to as int),
{
    let mut out: Vec<u8> = Vec::new();
    let mut k: usize = from;
    while k < to
        invariant
            from <= k <= to <= bytes@.len(),
            out@ == bytes@.subrange(from as int, k as int),
        decreases to - k,
    {
        out.push(bytes[k]);
        proof {
            assert(bytes@.subrange(from as int, k + 1) =~= bytes@.subrange(from as int, k as int).push(
                bytes@[k as int],
            ));
        }
        k = k + 1;
    }
    out
}

/// The all-zero lock field of the length the scheme prescribes.
pub fn placeholder(scheme: &AuthScheme) -> (r: Vec<u8>)
    requires
        scheme.wf(),
    ensures
        r@ == placeholder_spec(*scheme),
{
    let n = scheme.lock_len();
    let mut out: Vec<u8> = Vec::new();
    let mut k: usize = 0;
    while k < n
        invariant
            0 <= k <= n,
            n == scheme.lock_len_spec(),
            out@.len() == k,
            forall|t: int| 0 <= t < k ==> out@[t] == 0u8,
        decreases n - k,
    {
        out.push(0u8);
        k = k + 1;
    }
    assert(out@ =~= placeholder_spec(*scheme));
    out
}

/// Splits a lock field into header and signature area. Fails, with nothing
/// decoded, when its length is not the one the scheme prescribes.
pub fn decode(scheme: &AuthScheme, bytes: &[u8]) -> (r: Result<WitnessLock, SignError>)
    requires
        scheme.wf(),
    ensures
        match r {
            Ok(lock) => decode_spec(*scheme, bytes@) == Some((lock.header@, lock.signatures@)),
            Err(e) => e == SignError::MalformedWitness && decode_spec(*scheme, bytes@) is None,
        },
{
    let n = scheme.lock_len();
    if bytes.len() != n {
        return Err(SignError::MalformedWitness);
    }
    let h = scheme.header_len();
    let header = copy_range(bytes, 0, h);
    let signatures = copy_range(bytes, h, n);
    Ok(WitnessLock { header, signatures })
}

/// The lock field: the header followed by the signature area.
pub fn encode(lock: &WitnessLock) -> (r: Vec<u8>)
    ensures
        r@ == lock.encoded(),
{
    let mut out = copy_range(lock.header.as_slice(), 0, lock.header.len());
    let mut k: usize = 0;
    let ghost head = out@;
    proof {
        assert(head =~= lock.header@);
    }
    while k < lock.signatures.len()
        invariant
            0 <= k <= lock.signatures@.len(),
            head == lock.header@,
            out@ == head + lock.signatures@.subrange(0, k as int),
        decreases lock.signatures@.len() - k,
    {
        out.push(lock.signatures[k]);
        proof {
            assert(lock.signatures@.subrange(0, k + 1) =~= lock.signatures@.subrange(
                0,
                k as int,
            ).push(lock.signatures@[k as int]));
        }
        k = k + 1;
    }
    proof {
        assert(lock.signatures@.subrange(0, lock.signatures@.len() as int) =~= lock.signatures@);
    }
    out
}

/// Decoding a lock field and encoding the parts gives the lock field back.
pub proof fn lemma_decode_then_encode(scheme: AuthScheme, bytes: Seq<u8>)
    requires
        decode_spec(scheme, bytes) is Some,
    ensures
        decode_spec(scheme, bytes) matches Some((h, s)) && h + s == bytes,
{
    let h = scheme.header_len_spec() as int;
    assert(bytes.subrange(0, h) + bytes.subrange(h, bytes.len() as int) =~= bytes);
}

/// Encoding a lock that fits the scheme and decoding the result gives the
/// same header and signature area back.
pub proof fn lemma_encode_then_decode(scheme: AuthScheme, lock: WitnessLock)
    requires
        lock.fits(scheme),
    ensures
        decode_spec(scheme, lock.encoded()) == Some((lock.header@, lock.signatures@)),
{
    let e = lock.encoded();
    let h = scheme.header_len_spec() as int;
    assert(e.subrange(0, h) =~= lock.header@);
    assert(e.subrange(h, e.len() as int) =~= lock.signatures@);
}

/// The placeholder survives decoding and encoding unchanged: decoding it
/// succeeds, encoding the parts gives it back, and its length is the one
/// the scheme prescribes throughout.
pub proof fn lemma_placeholder_round_trip(scheme: AuthScheme)
    ensures
        decode_spec(scheme, placeholder_spec(scheme)) matches Some((h, s)) && h + s
            == placeholder_spec(scheme) && decode_spec(scheme, h + s) == Some((h, s)) && (h
            + s).len() == scheme.lock_len_spec(),
{
    let p = placeholder_spec(scheme);
    lemma_decode_then_encode(scheme, p);
}

} // verus!
