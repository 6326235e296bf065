//! A signing round: every supplied key signs every script group, each
//! signature landing in the slot of the key's identity.

use vstd::prelude::*;

use crate::codec::{lemma_slot_in_bounds, lemma_slots_disjoint, slot_of, slot_offset};
use crate::crypto::{all_zero, recoverable_signature_of, sign_recoverable};
use crate::error::SignError;
use crate::keys::{secrets, PrivkeyWrapper};
use crate::progress::{empty_count, progress_of, Progress};
use crate::scheme::{AuthScheme, SIGNATURE_LEN};

verus! {

/// Inputs that share one lock script: the witness that carries their lock
/// field, and the digest their signatures cover.
#[derive(Clone, Copy, Debug, PartialEq, Eq)]
pub struct ScriptGroup {
    pub witness_index: usize,
    pub digest: [u8; 32],
}

/// The unit of work kept between signing rounds: the lock field of each
/// witness of the transaction (empty where a witness has none) and the
/// scheme in force.
#[derive(Clone, Debug, PartialEq, Eq)]
pub struct TransactionEnvelope {
    pub lock_fields: Vec<Vec<u8>>,
    pub auth_scheme: AuthScheme,
}

impl TransactionEnvelope {
    pub open spec fn locks(&self) -> Seq<Seq<u8>> {
        self.lock_fields@.map_values(|v: Vec<u8>| v@)
    }
}

/// `s` with the bytes from `off` on replaced by `part`.
pub open spec fn splice(s: Seq<u8>, off: int, part: Seq<u8>) -> Seq<u8> {
    s.subrange(0, off) + part + s.subrange(off + part.len(), s.len() as int)
}

/// The slot that a key of the scheme signs.
pub open spec fn key_position(scheme: AuthScheme, secret: Seq<u8>) -> int {
    choose|i: int| scheme.matches_slot(secret, i)
}

/// The lock field after the first `k` keys wrote their signatures, in order.
pub open spec fn sign_keys(
    scheme: AuthScheme,
    keys: Seq<Seq<u8>>,
    digest: Seq<u8>,
    lock: Seq<u8>,
    k: nat,
) -> Seq<u8>
    decreases k,
{
    if k == 0 {
        lock
    } else {
        let secret = keys[k - 1];
        splice(
            sign_keys(scheme, keys, digest, lock, (k - 1) as nat),
            slot_offset(scheme, key_position(scheme, secret)),
            recoverable_signature_of(secret, scheme.message_spec(digest))@,
        )
    }
}

/// The lock field after all keys signed `digest`: with no key it is left
/// as it was; otherwise the scheme's header is written and then each key's
/// signature goes into its slot.
pub open spec fn signed_lock(
    scheme: AuthScheme,
    keys: Seq<Seq<u8>>,
    digest: Seq<u8>,
    lock: Seq<u8>,
) -> Seq<u8> {
    if keys.len() == 0 {
        lock
    } else {
        sign_keys(scheme, keys, digest, splice(lock, 0, scheme.header_spec()), keys.len())
    }
}

/// The lock fields after the first `n` groups were signed, in order.
pub open spec fn apply_groups(
    scheme: AuthScheme,
    keys: Seq<Seq<u8>>,
    groups: Seq<ScriptGroup>,
    locks: Seq<Seq<u8>>,
    n: nat,
) -> Seq<Seq<u8>>
    decreases n,
{
    if n == 0 {
        locks
    } else {
        let prev = apply_groups(scheme, keys, groups, locks, (n - 1) as nat);
        let g = groups[n - 1];
        prev.update(
            g.witness_index as int,
            signed_lock(scheme, keys, g.digest@, prev[g.witness_index as int]),
        )
    }
}

/// Why a round cannot start, checked in this order: a group without its
/// witness, a lock field of the wrong length, a key of no identity.
pub open spec fn round_error(
    scheme: AuthScheme,
    keys: Seq<Seq<u8>>,
    groups: Seq<ScriptGroup>,
    locks: Seq<Seq<u8>>,
) -> Option<SignError> {
    if !(forall|g: int| 0 <= g < groups.len() ==> groups[g].witness_index < locks.len()) {
        Some(SignError::UnlockError)
    } else if !(forall|g: int|
        0 <= g < groups.len() ==> locks[groups[g].witness_index as int].len()
            == scheme.lock_len_spec()) {
        Some(SignError::MalformedWitness)
    } else if !(forall|j: int| 0 <= j < keys.len() ==> scheme.matches_identity_spec(keys[j])) {
        Some(SignError::IdentityMismatch)
    } else {
        None
    }
}

/// The groups left without a signature: all of them when no key was given,
/// none otherwise.
pub open spec fn still_locked_spec(keys_len: nat, groups_len: nat) -> Seq<usize> {
    if keys_len == 0 {
        Seq::new(groups_len, |i: int| i as usize)
    } else {
        Seq::empty()
    }
}

/// Every slot that is filled in `before` is filled in `after`.
pub open spec fn keeps_filled(scheme: AuthScheme, before: Seq<u8>, after: Seq<u8>) -> bool {
    forall|i: int|
        0 <= i < scheme.slot_count_spec() && !all_zero(slot_of(scheme, before, i)) ==> !all_zero(
            #[trigger] slot_of(scheme, after, i),
        )
}

/// Writing bytes that are already in place changes nothing.
pub proof fn lemma_splice_same(s: Seq<u8>, off: int, part: Seq<u8>)
    requires
        0 <= off,
        off + part.len() <= s.len(),
        s.subrange(off, off + part.len()) == part,
    ensures
        splice(s, off, part) == s,
{
    assert(splice(s, off, part) =~= s);
}

/// A splice keeps the length and puts `part` at `off`.
pub proof fn lemma_splice_facts(s: Seq<u8>, off: int, part: Seq<u8>)
    requires
        0 <= off,
        off + part.len() <= s.len(),
    ensures
        splice(s, off, part).len() == s.len(),
        splice(s, off, part).subrange(off, off + part.len()) == part,
        forall|t: int|
            0 <= t < s.len() && !(off <= t < off + part.len()) ==> #[trigger] splice(
                s,
                off,
                part,
            )[t] == s[t],
{
    assert(splice(s, off, part).subrange(off, off + part.len()) =~= part);
}

/// A slot that a splice does not reach is unchanged.
pub proof fn lemma_splice_other_slot(
    scheme: AuthScheme,
    s: Seq<u8>,
    off: int,
    part: Seq<u8>,
    i: int,
)
    requires
        0 <= off,
        off + part.len() <= s.len(),
        0 <= i < scheme.slot_count_spec(),
        s.len() == scheme.lock_len_spec(),
        off + part.len() <= slot_offset(scheme, i) || slot_offset(scheme, i) + 65 <= off,
    ensures
        slot_of(scheme, splice(s, off, part), i) == slot_of(scheme, s, i),
{
    lemma_splice_facts(s, off, part);
    lemma_slot_in_bounds(scheme, i);
    assert(slot_of(scheme, splice(s, off, part), i) =~= slot_of(scheme, s, i));
}

/// A signing key's slot is the one `key_position` names.
proof fn lemma_key_position(scheme: AuthScheme, secret: Seq<u8>, p: int)
    requires
        scheme.wf(),
        scheme.matches_slot(secret, p),
    ensures
        key_position(scheme, secret) == p,
{
    let q = key_position(scheme, secret);
    assert(scheme.matches_slot(secret, q));
    scheme.lemma_position_unique(secret, p, q);
}

/// Writes `part` into `lock` from `off` on.
fn write_at(lock: &mut Vec<u8>, off: usize, part: &[u8])
    requires
        off + part@.len() <= old(lock)@.len(),
    ensures
        final(lock)@ == splice(old(lock)@, off as int, part@),
{
    let ghost before = lock@;
    let plen = part.len();
    let len = lock.len();
    let mut k: usize = 0;
    while k < plen
        invariant
            0 <= k <= plen,
            len == lock@.len(),
            plen == part@.len(),
            off + plen <= before.len(),
            lock@.len() == before.len(),
            forall|t: int| 0 <= t < off ==> lock@[t] == before[t],
            forall|t: int| off <= t < off + k ==> lock@[t] == part@[t - off],
            forall|t: int| off + k <= t < before.len() ==> lock@[t] == before[t],
        decreases plen - k,
    {
        lock.set(off + k, part[k]);
        k = k + 1;
    }
    assert(lock@ =~= splice(before, off as int, part@));
}

/// Signs one lock field with every key: writes the scheme's header, then
/// each key's signature over `digest` into that key's slot.
fn sign_lock(scheme: &AuthScheme, keys: &Vec<PrivkeyWrapper>, digest: &[u8; 32], lock: &mut Vec<u8>)
    requires
        scheme.wf(),
        old(lock)@.len() == scheme.lock_len_spec(),
        forall|j: int|
            0 <= j < keys@.len() ==> scheme.matches_identity_spec(#[trigger] keys@[j].0@),
    ensures
        final(lock)@ == signed_lock(*scheme, secrets(keys@), digest@, old(lock)@),
        final(lock)@.len() == old(lock)@.len(),
        keeps_filled(*scheme, old(lock)@, final(lock)@),
{
    let ghost before = lock@;
    let ghost ks = secrets(keys@);
    if keys.len() == 0 {
        return;
    }
    let header = scheme.header();
    let h = scheme.header_len();
    proof {
        lemma_splice_facts(before, 0, header@);
        assert forall|i: int| 0 <= i < scheme.slot_count_spec() implies slot_of(
            *scheme,
            splice(before, 0, header@),
            i,
        ) == slot_of(*scheme, before, i) by {
            lemma_slot_in_bounds(*scheme, i);
            lemma_splice_other_slot(*scheme, before, 0, header@, i);
        }
    }
    write_at(lock, 0, header.as_slice());
    let ghost base = lock@;
    let message = scheme.signing_message(digest);
    let mut j: usize = 0;
    while j < keys.len()
        invariant
            scheme.wf(),
            0 <= j <= keys@.len(),
            h == scheme.header_len_spec(),
            ks == secrets(keys@),
            ks.len() == keys@.len(),
            message@ == scheme.message_spec(digest@),
            base == splice(before, 0, scheme.header_spec()),
            before.len() == scheme.lock_len_spec(),
            lock@ == sign_keys(*scheme, ks, digest@, base, j as nat),
            lock@.len() == before.len(),
            keeps_filled(*scheme, before, lock@),
            forall|t: int|
                0 <= t < keys@.len() ==> scheme.matches_identity_spec(#[trigger] keys@[t].0@),
        decreases keys@.len() - j,
    {
        let secret: [u8; 32] = keys[j].0;
        assert(ks[j as int] == secret@);
        assert(scheme.matches_identity_spec(keys@[j as int].0@));
        let p = match scheme.signer_position(&secret) {
            Some(p) => p,
            None => {
                return;
            },
        };
        proof {
            lemma_key_position(*scheme, secret@, p as int);
            lemma_slot_in_bounds(*scheme, p as int);
        }
        let sig = sign_recoverable(&secret, &message);
        let ghost prev = lock@;
        write_at(lock, h + SIGNATURE_LEN * p, sig.as_slice());
        proof {
            let off = slot_offset(*scheme, p as int);
            lemma_splice_facts(prev, off, sig@);
            assert forall|i: int|
                0 <= i < scheme.slot_count_spec() && !all_zero(
                    slot_of(*scheme, before, i),
                ) implies !all_zero(#[trigger] slot_of(*scheme, lock@, i)) by {
                if i == p {
                    assert(slot_of(*scheme, lock@, i) == sig@);
                } else {
                    lemma_slots_disjoint(*scheme, i, p as int);
                    lemma_splice_other_slot(*scheme, prev, off, sig@, i);
                }
            }
        }
        j = j + 1;
    }
}

/// A copy of a lock field.
fn copy_bytes(v: &Vec<u8>) -> (r: Vec<u8>)
    ensures
        r@ == v@,
{
    let mut out: Vec<u8> = Vec::new();
    let mut k: usize = 0;
    while k < v.len()
        invariant
            0 <= k <= v@.len(),
            out@ == v@.subrange(0, k as int),
        decreases v@.len() - k,
    {
        out.push(v[k]);
        proof {
            assert(v@.subrange(0, k + 1) =~= v@.subrange(0, k as int).push(v@[k as int]));
        }
        k = k + 1;
    }
    assert(v@.subrange(0, v@.len() as int) =~= v@);
    out
}

/// Signs every script group with every key. Before anything is written,
/// each group must have its witness, each lock field the length the scheme
/// prescribes, and each key an identity in the scheme; otherwise the round
/// fails and the envelope is left as it was. On success each group's lock
/// field becomes `signed_lock` of what it was, the scheme is unchanged, no
/// filled slot is emptied, and the groups that no key signed are returned.
pub fn sign_round(
    envelope: &mut TransactionEnvelope,
    keys: &Vec<PrivkeyWrapper>,
    groups: &Vec<ScriptGroup>,
) -> (r: Result<Vec<usize>, SignError>)
    requires
        old(envelope).auth_scheme.wf(),
    ensures
        final(envelope).auth_scheme == old(envelope).auth_scheme,
        final(envelope).lock_fields@.len() == old(envelope).lock_fields@.len(),
        match r {
            Ok(still) => {
                &&& round_error(
                    old(envelope).auth_scheme,
                    secrets(keys@),
                    groups@,
                    old(envelope).locks(),
                ) is None
                &&& final(envelope).locks() == apply_groups(
                    old(envelope).auth_scheme,
                    secrets(keys@),
                    groups@,
                    old(envelope).locks(),
                    groups@.len(),
                )
                &&& still@ == still_locked_spec(keys@.len(), groups@.len())
            },
            Err(e) => {
                &&& round_error(
                    old(envelope).auth_scheme,
                    secrets(keys@),
                    groups@,
                    old(envelope).locks(),
                ) == Some(e)
                &&& final(envelope).locks() == old(envelope).locks()
            },
        },
        forall|w: int|
            0 <= w < old(envelope).lock_fields@.len() ==> keeps_filled(
                old(envelope).auth_scheme,
                #[trigger] old(envelope).locks()[w],
                final(envelope).locks()[w],
            ),
{
    let ghost old_locks = envelope.locks();
    let ghost ks = secrets(keys@);
    let ghost scheme = envelope.auth_scheme;
    let nw = envelope.lock_fields.len();
    let lock_len = envelope.auth_scheme.lock_len();
    proof {
        assert forall|w: int| 0 <= w < nw implies keeps_filled(
            scheme,
            #[trigger] old_locks[w],
            old_locks[w],
        ) by {}
    }
    let mut g: usize = 0;
    while g < groups.len()
        invariant
            0 <= g <= groups@.len(),
            nw == envelope.lock_fields@.len(),
            scheme == envelope.auth_scheme,
            old_locks == envelope.locks(),
            old_locks.len() == nw,
            forall|v: int| 0 <= v < nw ==> keeps_filled(scheme, #[trigger] old_locks[v], old_locks[v]),
            forall|t: int| 0 <= t < g ==> groups@[t].witness_index < nw,
        decreases groups@.len() - g,
    {
        if groups[g].witness_index >= nw {
            return Err(SignError::UnlockError);
        }
        g = g + 1;
    }
    g = 0;
    while g < groups.len()
        invariant
            0 <= g <= groups@.len(),
            nw == envelope.lock_fields@.len(),
            scheme == envelope.auth_scheme,
            old_locks == envelope.locks(),
            old_locks.len() == nw,
            forall|v: int| 0 <= v < nw ==> keeps_filled(scheme, #[trigger] old_locks[v], old_locks[v]),
            lock_len == scheme.lock_len_spec(),
            forall|t: int| 0 <= t < groups@.len() ==> groups@[t].witness_index < nw,
            forall|t: int|
                0 <= t < g ==> old_locks[groups@[t].witness_index as int].len() == lock_len,
        decreases groups@.len() - g,
    {
        let w = groups[g].witness_index;
        if envelope.lock_fields[w].len() != lock_len {
            assert(groups@[g as int].witness_index == w);
            assert(old_locks[groups@[g as int].witness_index as int].len()
                != scheme.lock_len_spec());
            return Err(SignError::MalformedWitness);
        }
        g = g + 1;
    }
    let mut j: usize = 0;
    while j < keys.len()
        invariant
            0 <= j <= keys@.len(),
            scheme == envelope.auth_scheme,
            scheme.wf(),
            ks == secrets(keys@),
            old_locks == envelope.locks(),
            old_locks.len() == nw,
            forall|v: int| 0 <= v < nw ==> keeps_filled(scheme, #[trigger] old_locks[v], old_locks[v]),
            lock_len == scheme.lock_len_spec(),
            forall|t: int| 0 <= t < groups@.len() ==> groups@[t].witness_index < nw,
            forall|t: int|
                0 <= t < groups@.len() ==> old_locks[groups@[t].witness_index as int].len()
                    == lock_len,
            forall|t: int| 0 <= t < j ==> scheme.matches_identity_spec(#[trigger] ks[t]),
        decreases keys@.len() - j,
    {
        if !envelope.auth_scheme.matches_identity(&keys[j].0) {
            assert(ks[j as int] == keys@[j as int].0@);
            return Err(SignError::IdentityMismatch);
        }
        j = j + 1;
    }
    proof {
        assert forall|t: int| 0 <= t < keys@.len() implies scheme.matches_identity_spec(
            #[trigger] keys@[t].0@,
        ) by {
            assert(ks[t] == keys@[t].0@);
        }
    }
    g = 0;
    while g < groups.len()
        invariant
            0 <= g <= groups@.len(),
            scheme == envelope.auth_scheme,
            scheme.wf(),
            ks == secrets(keys@),
            nw == envelope.lock_fields@.len(),
            lock_len == scheme.lock_len_spec(),
            old_locks.len() == nw,
            forall|t: int| 0 <= t < groups@.len() ==> groups@[t].witness_index < nw,
            forall|t: int|
                0 <= t < groups@.len() ==> old_locks[groups@[t].witness_index as int].len()
                    == lock_len,
            forall|t: int|
                0 <= t < keys@.len() ==> scheme.matches_identity_spec(#[trigger] keys@[t].0@),
            envelope.locks() == apply_groups(scheme, ks, groups@, old_locks, g as nat),
            forall|w: int| 0 <= w < nw ==> #[trigger] envelope.locks()[w].len() == old_locks[w].len(),
            forall|w: int|
                0 <= w < nw ==> keeps_filled(
                    scheme,
                    #[trigger] old_locks[w],
                    envelope.locks()[w],
                ),
        decreases groups@.len() - g,
    {
        let w = groups[g].witness_index;
        let digest = groups[g].digest;
        let mut lock = copy_bytes(&envelope.lock_fields[w]);
        let ghost prev = lock@;
        assert(prev == envelope.locks()[w as int]);
        sign_lock(&envelope.auth_scheme, keys, &digest, &mut lock);
        let ghost before_set = envelope.locks();
        envelope.lock_fields.set(w, lock);
        proof {
            assert(envelope.locks() =~= before_set.update(w as int, lock@));
            assert forall|v: int| 0 <= v < nw implies keeps_filled(
                scheme,
                #[trigger] old_locks[v],
                envelope.locks()[v],
            ) by {
                if v == w {
                    assert forall|i: int|
                        0 <= i < scheme.slot_count_spec() && !all_zero(
                            slot_of(scheme, old_locks[v], i),
                        ) implies !all_zero(#[trigger] slot_of(scheme, envelope.locks()[v], i)) by {
                        assert(keeps_filled(scheme, old_locks[v], before_set[v]));
                        assert(!all_zero(slot_of(scheme, before_set[v], i)));
                    }
                }
            }
        }
        g = g + 1;
    }
    let mut still: Vec<usize> = Vec::new();
    if keys.len() == 0 {
        let mut t: usize = 0;
        while t < groups.len()
            invariant
                0 <= t <= groups@.len(),
                still@ == Seq::new(t as nat, |i: int| i as usize),
            decreases groups@.len() - t,
        {
            still.push(t);
            proof {
                assert(still@ =~= Seq::new((t + 1) as nat, |i: int| i as usize));
            }
            t = t + 1;
        }
    }
    proof {
        assert(still@ =~= still_locked_spec(keys@.len(), groups@.len()));
    }
    Ok(still)
}

/// What a signing round achieved, as reported to the signer.
#[derive(Clone, Copy, Debug, PartialEq, Eq, Structural)]
pub enum RoundStatus {
    /// Every slot of the lock field is filled.
    Signed,
    /// This many slots of the lock field are still empty.
    NeedMore(u32),
    /// This many script groups received no signature this round.
    GroupsLeft(usize),
}

/// Reports a round from the lock field it left and the number of groups
/// still locked. A fully filled lock field while groups remain locked is an
/// inconsistency, not a success.
pub fn round_status(scheme: &AuthScheme, lock_field: &[u8], still_locked: usize) -> (r: Result<
    RoundStatus,
    SignError,
>)
    requires
        scheme.wf(),
    ensures
        lock_field@.len() != scheme.lock_len_spec() ==> r == Err::<RoundStatus, SignError>(
            SignError::MalformedWitness,
        ),
        lock_field@.len() == scheme.lock_len_spec() ==> r == match progress_of(
            empty_count(*scheme, lock_field@),
        ) {
            Progress::Complete => if still_locked == 0 {
                Ok(RoundStatus::Signed)
            } else {
                Err(SignError::InconsistentState)
            },
            Progress::NeedMore(k) => if still_locked == 0 {
                Ok(RoundStatus::NeedMore(k))
            } else {
                Ok(RoundStatus::GroupsLeft(still_locked))
            },
        },
{
    match crate::progress::assess(lock_field, scheme) {
        Err(e) => Err(e),
        Ok(Progress::Complete) => if still_locked == 0 {
            Ok(RoundStatus::Signed)
        } else {
            Err(SignError::InconsistentState)
        },
        Ok(Progress::NeedMore(k)) => if still_locked == 0 {
            Ok(RoundStatus::NeedMore(k))
        } else {
            Ok(RoundStatus::GroupsLeft(still_locked))
        },
    }
}

/// Signing a lock field twice with the same key gives the same bytes as
/// signing it once; signing changes no slot but the key's own; and the
/// tracker classifies the twice-signed field as it does the once-signed one.
pub proof fn lemma_resign_idempotent(
    scheme: AuthScheme,
    secret: Seq<u8>,
    digest: Seq<u8>,
    lock: Seq<u8>,
)
    requires
        scheme.wf(),
        scheme.matches_identity_spec(secret),
        lock.len() == scheme.lock_len_spec(),
    ensures
        signed_lock(scheme, seq![secret], digest, signed_lock(scheme, seq![secret], digest, lock))
            == signed_lock(scheme, seq![secret], digest, lock),
        forall|i: int|
            0 <= i < scheme.slot_count_spec() && i != key_position(scheme, secret) ==> slot_of(
                scheme,
                #[trigger] signed_lock(scheme, seq![secret], digest, lock),
                i,
            ) == slot_of(scheme, lock, i),
        progress_of(
            empty_count(
                scheme,
                signed_lock(
                    scheme,
                    seq![secret],
                    digest,
                    signed_lock(scheme, seq![secret], digest, lock),
                ),
            ),
        ) == progress_of(empty_count(scheme, signed_lock(scheme, seq![secret], digest, lock))),
{
    let ks = seq![secret];
    let header = scheme.header_spec();
    let p = key_position(scheme, secret);
    let sig = recoverable_signature_of(secret, scheme.message_spec(digest))@;
    if let AuthScheme::Multisig(c) = scheme {
        crate::scheme::lemma_concat_hashes_len(c.sighash_addresses@);
    }
    assert(header.len() == scheme.header_len_spec());
    assert(scheme.matches_slot(secret, p));
    lemma_slot_in_bounds(scheme, p);
    let off = slot_offset(scheme, p);
    let base = splice(lock, 0, header);
    lemma_splice_facts(lock, 0, header);
    assert(sign_keys(scheme, ks, digest, base, 0) == base);
    let once = splice(base, off, sig);
    assert(sign_keys(scheme, ks, digest, base, 1) == once);
    assert(signed_lock(scheme, ks, digest, lock) == once);
    lemma_splice_facts(base, off, sig);
    assert(once.subrange(0, header.len() as int) =~= header) by {
        assert(base.subrange(0, header.len() as int) =~= header);
    }
    lemma_splice_same(once, 0, header);
    let base2 = splice(once, 0, header);
    assert(base2 == once);
    assert(sign_keys(scheme, ks, digest, base2, 0) == base2);
    assert(sign_keys(scheme, ks, digest, base2, 1) == splice(base2, off, sig));
    lemma_splice_same(once, off, sig);
    assert(signed_lock(scheme, ks, digest, once) == once);
    assert forall|i: int|
        0 <= i < scheme.slot_count_spec() && i != p implies slot_of(
            scheme,
            #[trigger] signed_lock(scheme, ks, digest, lock),
            i,
        ) == slot_of(scheme, lock, i) by {
        lemma_slots_disjoint(scheme, i, p);
        lemma_splice_other_slot(scheme, base, off, sig, i);
        lemma_splice_other_slot(scheme, lock, 0, header, i);
    }
}

/// A filled slot stays filled across any number of rounds.
pub proof fn lemma_keeps_filled_trans(scheme: AuthScheme, a: Seq<u8>, b: Seq<u8>, c: Seq<u8>)
    requires
        keeps_filled(scheme, a, b),
        keeps_filled(scheme, b, c),
    ensures
        keeps_filled(scheme, a, c),
{
    assert forall|i: int|
        0 <= i < scheme.slot_count_spec() && !all_zero(slot_of(scheme, a, i)) implies !all_zero(
        #[trigger] slot_of(scheme, c, i),
    ) by {
        assert(!all_zero(slot_of(scheme, b, i)));
    }
}

} // verus!
