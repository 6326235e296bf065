//! How far a lock field is from being fully signed, read from its bytes alone.

use vstd::prelude::*;

use crate::codec::{lemma_slot_in_bounds, slot_of, slot_offset};
use crate::crypto::all_zero;
use crate::error::SignError;
use crate::scheme::{AuthScheme, SIGNATURE_LEN};

verus! {

/// The state of a lock field's signature slots.
#[derive(Clone, Copy, Debug, PartialEq, Eq, Structural)]
pub enum Progress {
    /// No slot is empty.
    Complete,
    /// This many slots are still all zero.
    NeedMore(u32),
}

/// Number of all-zero slots among the first `n` slots of a lock field.
pub open spec fn empty_slots(scheme: AuthScheme, lock: Seq<u8>, n: nat) -> nat
    decreases n,
{
    if n == 0 {
        0
    } else {
        empty_slots(scheme, lock, (n - 1) as nat) + if all_zero(
            slot_of(scheme, lock, n - 1),
        ) {
            1nat
        } else {
            0nat
        }
    }
}

/// Number of all-zero slots of a lock field.
pub open spec fn empty_count(scheme: AuthScheme, lock: Seq<u8>) -> nat {
    empty_slots(scheme, lock, scheme.slot_count_spec())
}

/// The classification of a lock field with `empty` all-zero slots.
pub open spec fn progress_of(empty: nat) -> Progress {
    if empty == 0 {
        Progress::Complete
    } else {
        Progress::NeedMore(empty as u32)
    }
}

/// Whether the 65 bytes at `off` are all zero.
fn is_empty_at(lock: &[u8], off: usize) -> (r: bool)
    requires
        off + 65 <= lock@.len(),
    ensures
        r == all_zero(lock@.subrange(off as int, off + 65)),
{
    let len = lock.len();
    let mut k: usize = 0;
    while k < SIGNATURE_LEN
        invariant
            0 <= k <= 65,
            len == lock@.len(),
            off + 65 <= lock@.len(),
            forall|t: int| off <= t < off + k ==> lock@[t] == 0u8,
        decreases 65 - k,
    {
        if lock[off + k] != 0 {
            assert(lock@.subrange(off as int, off + 65)[k as int] != 0u8);
            return false;
        }
        k = k + 1;
    }
    true
}

/// Counts the all-zero slots of a lock field of the prescribed length.
pub fn count_empty_slots(scheme: &AuthScheme, lock: &[u8]) -> (r: u32)
    requires
        scheme.wf(),
        lock@.len() == scheme.lock_len_spec(),
    ensures
        r == empty_count(*scheme, lock@),
{
    let n = scheme.slot_count();
    let h = scheme.header_len();
    let mut count: u32 = 0;
    let mut i: usize = 0;
    while i < n
        invariant
            0 <= i <= n,
            n == scheme.slot_count_spec(),
            n <= 255,
            h == scheme.header_len_spec(),
            lock@.len() == scheme.lock_len_spec(),
            count == empty_slots(*scheme, lock@, i as nat),
            count <= i,
        decreases n - i,
    {
        proof {
            lemma_slot_in_bounds(*scheme, i as int);
        }
        let off = h + SIGNATURE_LEN * i;
        if is_empty_at(lock, off) {
            count = count + 1;
        }
        i = i + 1;
    }
    count
}

/// Classifies a lock field: `Complete` when no slot is all zero, otherwise
/// `NeedMore` with the number of all-zero slots. The count is of empty slots,
/// not of the signatures the threshold still requires. Fails with
/// `MalformedWitness` when the length is not the one the scheme prescribes.
pub fn assess(lock_field: &[u8], scheme: &AuthScheme) -> (r: Result<Progress, SignError>)
    requires
        scheme.wf(),
    ensures
        match r {
            Ok(p) => lock_field@.len() == scheme.lock_len_spec() && p == progress_of(
                empty_count(*scheme, lock_field@),
            ),
            Err(e) => e == SignError::MalformedWitness && lock_field@.len()
                != scheme.lock_len_spec(),
        },
{
    if lock_field.len() != scheme.lock_len() {
        return Err(SignError::MalformedWitness);
    }
    let empty = count_empty_slots(scheme, lock_field);
    if empty == 0 {
        Ok(Progress::Complete)
    } else {
        Ok(Progress::NeedMore(empty))
    }
}

} // verus!
