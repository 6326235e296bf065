use omnilock::address::{build_multisig_config, LockScript, ScriptHashType, SIGHASH_TYPE_HASH};
use omnilock::config::{ConfigContext, ConfigValueError};
use omnilock::error::ConfigError;
use omnilock::keys::{strip_prefix_0x, ArgParser, Hash160ArgParser, ParseError, PrivkeyArgParser};
use omnilock::scheme::{ethereum_address, pubkey_hash, AuthScheme, MultisigConfig};

fn compressed(secret: &[u8; 32]) -> [u8; 33] {
    let key = secp256k1::SecretKey::from_slice(secret).unwrap();
    secp256k1::PublicKey::from_secret_key(&secp256k1::Secp256k1::new(), &key).serialize()
}

fn sighash_lock(hash: [u8; 20]) -> LockScript {
    LockScript { code_hash: SIGHASH_TYPE_HASH, hash_type: ScriptHashType::Type, args: hash.to_vec() }
}

#[test]
fn strip_prefix_removes_lower_and_upper_prefix() {
    assert_eq!(strip_prefix_0x("0xabcd"), "abcd");
    assert_eq!(strip_prefix_0x("0Xabcd"), "abcd");
    assert_eq!(strip_prefix_0x("abcd"), "abcd");
    assert_eq!(strip_prefix_0x("0x"), "");
    assert_eq!(strip_prefix_0x("0"), "0");
    assert_eq!(strip_prefix_0x("x0abcd"), "x0abcd");
}

#[test]
fn privkey_parser_accepts_hex_with_or_without_prefix() {
    let text = "0101010101010101010101010101010101010101010101010101010101010101";
    let a = PrivkeyArgParser::parse(text).ok().unwrap();
    let b = PrivkeyArgParser::parse(&format!("0x{}", text)).ok().unwrap();
    assert_eq!(a.0, [1u8; 32]);
    assert_eq!(b.0, [1u8; 32]);
    let mixed = PrivkeyArgParser::parse(
        "0xABcdef0000000000000000000000000000000000000000000000000000000001",
    )
    .ok()
    .unwrap();
    assert_eq!(mixed.0[0], 0xab);
    assert_eq!(mixed.0[1], 0xcd);
    assert_eq!(mixed.0[2], 0xef);
    assert_eq!(mixed.0[31], 0x01);
}

#[test]
fn privkey_parser_rejects_bad_text_and_bad_keys() {
    assert_eq!(PrivkeyArgParser::parse("0x0101").err(), Some(ParseError::InvalidHex));
    let bad_digit = "zz01010101010101010101010101010101010101010101010101010101010101";
    assert_eq!(PrivkeyArgParser::parse(bad_digit).err(), Some(ParseError::InvalidHex));
    let zero = "0000000000000000000000000000000000000000000000000000000000000000";
    assert_eq!(PrivkeyArgParser::parse(zero).err(), Some(ParseError::InvalidSecretKey));
    let order = "fffffffffffffffffffffffffffffffebaaedce6af48a03bbfd25e8cd0364141";
    assert_eq!(PrivkeyArgParser::parse(order).err(), Some(ParseError::InvalidSecretKey));
}

#[test]
fn hash160_parser_reads_twenty_bytes() {
    let h = Hash160ArgParser::parse("0x00112233445566778899aabbccddeeff00112233").unwrap();
    assert_eq!(h[0], 0x00);
    assert_eq!(h[1], 0x11);
    assert_eq!(h[10], 0xaa);
    assert_eq!(h[19], 0x33);
    assert_eq!(Hash160ArgParser::parse("0x0011").unwrap_err(), ParseError::InvalidHex);
}

#[test]
fn pubkey_hash_is_blake160_of_compressed_key() {
    let secret = [1u8; 32];
    let expected = ckb_hash::blake2b_256(compressed(&secret));
    assert_eq!(pubkey_hash(&secret).unwrap().to_vec(), expected[0..20].to_vec());
    assert_eq!(pubkey_hash(&[0u8; 32]), None);
}

#[test]
fn ethereum_address_is_keccak160_of_uncompressed_key() {
    let secret = [7u8; 32];
    let key = secp256k1::SecretKey::from_slice(&secret).unwrap();
    let point = secp256k1::PublicKey::from_secret_key(&secp256k1::Secp256k1::new(), &key);
    let full = point.serialize_uncompressed();
    let expected = ckb_sdk::util::keccak160(&full[1..65]);
    assert_eq!(ethereum_address(&secret).unwrap(), expected.0);
    assert_ne!(ethereum_address(&secret).unwrap(), pubkey_hash(&secret).unwrap());
}

#[test]
fn multisig_config_rules() {
    let a = [1u8; 20];
    let b = [2u8; 20];
    let c = [3u8; 20];
    assert_eq!(MultisigConfig::new_with(vec![], 0, 0).unwrap_err(), ConfigError::EmptyIdentityList);
    assert_eq!(
        MultisigConfig::new_with(vec![a, b, a], 0, 2).unwrap_err(),
        ConfigError::DuplicateIdentity
    );
    assert_eq!(
        MultisigConfig::new_with(vec![a, b, c], 0, 4).unwrap_err(),
        ConfigError::ThresholdTooLarge
    );
    assert_eq!(
        MultisigConfig::new_with(vec![a, b, c], 3, 2).unwrap_err(),
        ConfigError::RequireFirstNTooLarge
    );
    assert_eq!(
        MultisigConfig::new_with(vec![[9u8; 20]; 256], 0, 1).unwrap_err(),
        ConfigError::TooManyIdentities
    );
    let ok = MultisigConfig::new_with(vec![a, b, c], 1, 2).unwrap();
    assert_eq!(ok.sighash_addresses, vec![a, b, c]);
    assert_eq!(ok.require_first_n, 1);
    assert_eq!(ok.threshold, 2);
}

#[test]
fn multisig_witness_data_layout() {
    let cfg = MultisigConfig::new_with(vec![[0xaa; 20], [0xbb; 20]], 1, 2).unwrap();
    let data = cfg.to_witness_data();
    assert_eq!(data.len(), 4 + 40);
    assert_eq!(&data[0..4], &[0u8, 1, 2, 2]);
    assert_eq!(&data[4..24], &[0xaa; 20]);
    assert_eq!(&data[24..44], &[0xbb; 20]);
    let expected = ckb_hash::blake2b_256(&data);
    assert_eq!(cfg.hash160().to_vec(), expected[0..20].to_vec());
}

#[test]
fn build_args_per_scheme() {
    let h = [0x42u8; 20];
    let mut expected = vec![0u8];
    expected.extend_from_slice(&h);
    expected.push(0);
    assert_eq!(AuthScheme::PubkeyHash(h).build_args(), expected);
    expected[0] = 1;
    assert_eq!(AuthScheme::Ethereum(h).build_args(), expected);
    let cfg = MultisigConfig::new_with(vec![[1u8; 20], [2u8; 20]], 0, 1).unwrap();
    let digest = ckb_hash::blake2b_256(cfg.to_witness_data());
    let args = AuthScheme::Multisig(cfg).build_args();
    assert_eq!(args.len(), 22);
    assert_eq!(args[0], 6);
    assert_eq!(&args[1..21], &digest[0..20]);
    assert_eq!(args[21], 0);
}

#[test]
fn build_multisig_config_from_lock_scripts() {
    let a = [1u8; 20];
    let b = [2u8; 20];
    assert_eq!(build_multisig_config(&vec![], 0, 0).unwrap_err(), ConfigError::EmptyIdentityList);
    let mut wrong_type = sighash_lock(b);
    wrong_type.hash_type = ScriptHashType::Data;
    assert_eq!(
        build_multisig_config(&vec![sighash_lock(a), wrong_type], 0, 1).unwrap_err(),
        ConfigError::NotSighashAddress(1)
    );
    let mut wrong_code = sighash_lock(a);
    wrong_code.code_hash[0] ^= 1;
    assert_eq!(
        build_multisig_config(&vec![wrong_code, sighash_lock(b)], 0, 1).unwrap_err(),
        ConfigError::NotSighashAddress(0)
    );
    let mut short_args = sighash_lock(a);
    short_args.args.pop();
    assert_eq!(
        build_multisig_config(&vec![short_args], 0, 1).unwrap_err(),
        ConfigError::NotSighashAddress(0)
    );
    assert_eq!(
        build_multisig_config(&vec![sighash_lock(a), sighash_lock(a)], 0, 1).unwrap_err(),
        ConfigError::DuplicateIdentity
    );
    let cfg = build_multisig_config(&vec![sighash_lock(a), sighash_lock(b)], 1, 2).unwrap();
    assert_eq!(cfg.sighash_addresses, vec![a, b]);
    assert_eq!(cfg.require_first_n, 1);
    assert_eq!(cfg.threshold, 2);
}

#[test]
fn config_entries_are_checked() {
    let hash = "00000000000000000000000000000000000000000000000000000000000000ff";
    let ok = ConfigContext::from_entries(hash, 7, "http://a".to_string(), "http://b".to_string())
        .unwrap();
    assert_eq!(ok.omnilock_tx_hash[31], 0xff);
    assert_eq!(ok.omnilock_index, 7);
    assert_eq!(ok.ckb_rpc, "http://a");
    assert_eq!(ok.ckb_indexer, "http://b");
    let prefixed = format!("0x{}", hash);
    assert_eq!(
        ConfigContext::from_entries(&prefixed, 7, String::new(), String::new()).unwrap_err(),
        ConfigValueError::TxHash
    );
    assert_eq!(
        ConfigContext::from_entries(hash, -1, String::new(), String::new()).unwrap_err(),
        ConfigValueError::Index
    );
    assert_eq!(
        ConfigContext::from_entries(hash, 1 << 32, String::new(), String::new()).unwrap_err(),
        ConfigValueError::Index
    );
}
