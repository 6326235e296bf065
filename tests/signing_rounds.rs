use omnilock::codec::{decode, encode, placeholder, WitnessLock};
use omnilock::coordinator::{round_status, sign_round, RoundStatus, ScriptGroup, TransactionEnvelope};
use omnilock::error::SignError;
use omnilock::keys::PrivkeyWrapper;
use omnilock::progress::{assess, count_empty_slots, Progress};
use omnilock::scheme::{ethereum_address, pubkey_hash, AuthScheme, MultisigConfig};

const DIGEST: [u8; 32] = [0x5a; 32];

fn key(b: u8) -> PrivkeyWrapper {
    PrivkeyWrapper([b; 32])
}

fn two_of_three() -> AuthScheme {
    let hashes = vec![
        pubkey_hash(&[1u8; 32]).unwrap(),
        pubkey_hash(&[2u8; 32]).unwrap(),
        pubkey_hash(&[3u8; 32]).unwrap(),
    ];
    AuthScheme::Multisig(MultisigConfig::new_with(hashes, 0, 2).unwrap())
}

fn envelope(scheme: &AuthScheme) -> TransactionEnvelope {
    TransactionEnvelope {
        lock_fields: vec![placeholder(scheme), vec![]],
        auth_scheme: scheme.clone(),
    }
}

fn group() -> Vec<ScriptGroup> {
    vec![ScriptGroup { witness_index: 0, digest: DIGEST }]
}

fn slot(lock: &[u8], header: usize, i: usize) -> &[u8] {
    &lock[header + 65 * i..header + 65 * i + 65]
}

fn recover(sig: &[u8], message: &[u8; 32]) -> [u8; 33] {
    let id = secp256k1::ecdsa::RecoveryId::from_i32(sig[64] as i32).unwrap();
    let rs = secp256k1::ecdsa::RecoverableSignature::from_compact(&sig[0..64], id).unwrap();
    let msg = secp256k1::Message::from_slice(message).unwrap();
    secp256k1::Secp256k1::new().recover_ecdsa(&msg, &rs).unwrap().serialize()
}

fn compressed(secret: &[u8; 32]) -> [u8; 33] {
    let k = secp256k1::SecretKey::from_slice(secret).unwrap();
    secp256k1::PublicKey::from_secret_key(&secp256k1::Secp256k1::new(), &k).serialize()
}

#[test]
fn placeholder_lengths_per_scheme() {
    let single = placeholder(&AuthScheme::PubkeyHash([0u8; 20]));
    assert_eq!(single, vec![0u8; 65]);
    assert_eq!(placeholder(&AuthScheme::Ethereum([0u8; 20])).len(), 65);
    let multi = placeholder(&two_of_three());
    assert_eq!(multi.len(), 4 + 20 * 3 + 65 * 3);
    assert!(multi.iter().all(|b| *b == 0));
}

#[test]
fn placeholder_round_trips_through_codec() {
    for scheme in [AuthScheme::PubkeyHash([9u8; 20]), two_of_three()] {
        let p = placeholder(&scheme);
        let decoded = decode(&scheme, &p).unwrap();
        assert_eq!(encode(&decoded), p);
        assert_eq!(decode(&scheme, &encode(&decoded)).unwrap(), decoded);
    }
}

#[test]
fn decode_splits_header_and_slots() {
    let scheme = two_of_three();
    let bytes: Vec<u8> = (0..259u32).map(|i| (i % 251) as u8).collect();
    let lock = decode(&scheme, &bytes).unwrap();
    assert_eq!(lock.header, bytes[0..64].to_vec());
    assert_eq!(lock.signatures, bytes[64..].to_vec());
    let single = decode(&AuthScheme::PubkeyHash([0u8; 20]), &bytes[0..65]).unwrap();
    assert_eq!(single, WitnessLock { header: vec![], signatures: bytes[0..65].to_vec() });
}

#[test]
fn malformed_lengths_are_rejected() {
    let scheme = two_of_three();
    assert_eq!(decode(&scheme, &vec![0u8; 258]), Err(SignError::MalformedWitness));
    assert_eq!(decode(&scheme, &vec![0u8; 260]), Err(SignError::MalformedWitness));
    assert_eq!(decode(&scheme, &[]), Err(SignError::MalformedWitness));
    let single = AuthScheme::PubkeyHash([0u8; 20]);
    assert_eq!(decode(&single, &vec![0u8; 85]), Err(SignError::MalformedWitness));
    assert_eq!(assess(&vec![0u8; 64], &single), Err(SignError::MalformedWitness));
}

#[test]
fn assess_counts_empty_slots_for_two_of_three() {
    let scheme = two_of_three();
    let mut lock = placeholder(&scheme);
    assert_eq!(assess(&lock, &scheme), Ok(Progress::NeedMore(3)));
    lock[64] = 1;
    assert_eq!(assess(&lock, &scheme), Ok(Progress::NeedMore(2)));
    lock[64 + 2 * 65 + 64] = 1;
    assert_eq!(assess(&lock, &scheme), Ok(Progress::NeedMore(1)));
    assert_eq!(count_empty_slots(&scheme, &lock), 1);
    lock[64 + 65 + 10] = 7;
    assert_eq!(assess(&lock, &scheme), Ok(Progress::Complete));
}

#[test]
fn single_key_round_fills_the_lock() {
    let secret = [1u8; 32];
    let scheme = AuthScheme::PubkeyHash(pubkey_hash(&secret).unwrap());
    let mut env = envelope(&scheme);
    let still = sign_round(&mut env, &vec![key(1)], &group()).unwrap();
    assert!(still.is_empty());
    let lock = env.lock_fields[0].clone();
    assert_eq!(lock.len(), 65);
    assert_ne!(lock, placeholder(&scheme));
    assert_eq!(recover(&lock, &DIGEST), compressed(&secret));
    assert_eq!(env.lock_fields[1], Vec::<u8>::new());
    assert_eq!(round_status(&scheme, &lock, still.len()), Ok(RoundStatus::Signed));
}

#[test]
fn ethereum_round_signs_the_converted_message() {
    let secret = [4u8; 32];
    let scheme = AuthScheme::Ethereum(ethereum_address(&secret).unwrap());
    let mut env = envelope(&scheme);
    let still = sign_round(&mut env, &vec![key(4)], &group()).unwrap();
    assert!(still.is_empty());
    let message = ckb_sdk::util::convert_keccak256_hash(&DIGEST).0;
    assert_ne!(message, DIGEST);
    assert_eq!(recover(&env.lock_fields[0], &message), compressed(&secret));
}

#[test]
fn multisig_two_of_three_rounds() {
    let scheme = two_of_three();
    let mut env = envelope(&scheme);
    let still = sign_round(&mut env, &vec![key(1)], &group()).unwrap();
    assert!(still.is_empty());
    let after_first = env.lock_fields[0].clone();
    let header = MultisigConfig::new_with(
        vec![
            pubkey_hash(&[1u8; 32]).unwrap(),
            pubkey_hash(&[2u8; 32]).unwrap(),
            pubkey_hash(&[3u8; 32]).unwrap(),
        ],
        0,
        2,
    )
    .unwrap()
    .to_witness_data();
    assert_eq!(&after_first[0..64], header.as_slice());
    assert_eq!(recover(slot(&after_first, 64, 0), &DIGEST), compressed(&[1u8; 32]));
    assert_eq!(slot(&after_first, 64, 1), &[0u8; 65][..]);
    assert_eq!(slot(&after_first, 64, 2), &[0u8; 65][..]);
    assert_eq!(assess(&after_first, &scheme), Ok(Progress::NeedMore(2)));

    sign_round(&mut env, &vec![key(3)], &group()).unwrap();
    let after_second = env.lock_fields[0].clone();
    assert_eq!(slot(&after_second, 64, 0), slot(&after_first, 64, 0));
    assert_eq!(slot(&after_second, 64, 1), &[0u8; 65][..]);
    assert_eq!(recover(slot(&after_second, 64, 2), &DIGEST), compressed(&[3u8; 32]));
    assert_eq!(assess(&after_second, &scheme), Ok(Progress::NeedMore(1)));
    assert_eq!(round_status(&scheme, &after_second, 0), Ok(RoundStatus::NeedMore(1)));

    sign_round(&mut env, &vec![key(2)], &group()).unwrap();
    assert_eq!(assess(&env.lock_fields[0], &scheme), Ok(Progress::Complete));
}

#[test]
fn several_keys_in_one_round() {
    let scheme = two_of_three();
    let mut env = envelope(&scheme);
    sign_round(&mut env, &vec![key(3), key(1)], &group()).unwrap();
    let lock = &env.lock_fields[0];
    assert_eq!(recover(slot(lock, 64, 0), &DIGEST), compressed(&[1u8; 32]));
    assert_eq!(slot(lock, 64, 1), &[0u8; 65][..]);
    assert_eq!(recover(slot(lock, 64, 2), &DIGEST), compressed(&[3u8; 32]));
}

#[test]
fn signing_twice_with_one_key_changes_nothing() {
    let scheme = two_of_three();
    let mut env = envelope(&scheme);
    sign_round(&mut env, &vec![key(2)], &group()).unwrap();
    let once = env.lock_fields[0].clone();
    sign_round(&mut env, &vec![key(2)], &group()).unwrap();
    assert_eq!(env.lock_fields[0], once);
    assert_eq!(assess(&once, &scheme), assess(&env.lock_fields[0], &scheme));
}

#[test]
fn unknown_key_is_rejected_without_changes() {
    let scheme = two_of_three();
    let mut env = envelope(&scheme);
    sign_round(&mut env, &vec![key(1)], &group()).unwrap();
    let before = env.clone();
    assert_eq!(sign_round(&mut env, &vec![key(2), key(9)], &group()), Err(SignError::IdentityMismatch));
    assert_eq!(env, before);
    assert_eq!(sign_round(&mut env, &vec![PrivkeyWrapper([0u8; 32])], &group()), Err(SignError::IdentityMismatch));
    assert_eq!(env, before);
}

#[test]
fn missing_witness_is_an_unlock_error() {
    let scheme = two_of_three();
    let mut env = envelope(&scheme);
    let before = env.clone();
    let groups = vec![ScriptGroup { witness_index: 2, digest: DIGEST }];
    assert_eq!(sign_round(&mut env, &vec![key(1)], &groups), Err(SignError::UnlockError));
    assert_eq!(env, before);
}

#[test]
fn wrong_lock_length_stops_the_round() {
    let scheme = two_of_three();
    let mut env = envelope(&scheme);
    let groups = vec![ScriptGroup { witness_index: 1, digest: DIGEST }];
    assert_eq!(sign_round(&mut env, &vec![key(1)], &groups), Err(SignError::MalformedWitness));
}

#[test]
fn no_keys_leaves_every_group_locked() {
    let scheme = two_of_three();
    let mut env = envelope(&scheme);
    let before = env.clone();
    let groups = vec![
        ScriptGroup { witness_index: 0, digest: DIGEST },
        ScriptGroup { witness_index: 0, digest: [1u8; 32] },
    ];
    assert_eq!(sign_round(&mut env, &vec![], &groups), Ok(vec![0, 1]));
    assert_eq!(env, before);
    assert_eq!(round_status(&scheme, &env.lock_fields[0], 2), Ok(RoundStatus::GroupsLeft(2)));
}

#[test]
fn filled_lock_with_locked_groups_is_inconsistent() {
    let secret = [1u8; 32];
    let scheme = AuthScheme::PubkeyHash(pubkey_hash(&secret).unwrap());
    let mut env = envelope(&scheme);
    sign_round(&mut env, &vec![key(1)], &group()).unwrap();
    assert_eq!(round_status(&scheme, &env.lock_fields[0], 1), Err(SignError::InconsistentState));
    assert_eq!(round_status(&scheme, &placeholder(&scheme), 0), Ok(RoundStatus::NeedMore(1)));
    assert_eq!(round_status(&scheme, &[0u8; 3], 0), Err(SignError::MalformedWitness));
}
