//! Private keys, and the parsing of keys and hashes given as hex strings.

use vstd::prelude::*;
use vstd::string::StringSliceAdditionalSpecFns;

use crate::crypto::{is_valid_secret, secret_is_valid, zeroize_secret};

verus! {

/// A secp256k1 private key, as its 32 secret bytes. The bytes are wiped
/// when the value is dropped.
#[derive(Clone)]
pub struct PrivkeyWrapper(pub [u8; 32]);

impl Drop for PrivkeyWrapper {
    fn drop(&mut self)
        opens_invariants none
        no_unwind
    {
        zeroize_secret(&mut self.0);
    }
}

/// The secret bytes of each key.
pub open spec fn secrets(keys: Seq<PrivkeyWrapper>) -> Seq<Seq<u8>> {
    keys.map_values(|k: PrivkeyWrapper| k.0@)
}

/// The text starts with `0x` or `0X`.
pub open spec fn has_hex_prefix(text: Seq<u8>) -> bool {
    &&& text.len() >= 2
    &&& text[0] == 0x30u8
    &&& (text[1] == 0x78u8 || text[1] == 0x58u8)
}

/// The text without a leading `0x` or `0X`.
pub open spec fn without_hex_prefix(text: Seq<u8>) -> Seq<u8> {
    if has_hex_prefix(text) {
        text.subrange(2, text.len() as int)
    } else {
        text
    }
}

/// The value of one hex digit, upper or lower case.
pub open spec fn hex_digit(c: u8) -> Option<u8> {
    if 0x30 <= c <= 0x39 {
        Some((c - 0x30) as u8)
    } else if 0x61 <= c <= 0x66 {
        Some((c - 0x61 + 10) as u8)
    } else if 0x41 <= c <= 0x46 {
        Some((c - 0x41 + 10) as u8)
    } else {
        None
    }
}

/// The byte that digits `2 * i` and `2 * i + 1` of the text spell.
pub open spec fn hex_pair(text: Seq<u8>, i: int) -> Option<u8> {
    match (hex_digit(text[2 * i]), hex_digit(text[2 * i + 1])) {
        (Some(hi), Some(lo)) => Some((16 * hi + lo) as u8),
        _ => None,
    }
}

/// The text is exactly `2 * n` hex digits.
pub open spec fn is_hex_of_len(text: Seq<u8>, n: nat) -> bool {
    &&& text.len() == 2 * n
    &&& forall|i: int| 0 <= i < n ==> #[trigger] hex_pair(text, i) is Some
}

/// The text is the hex spelling of `bytes`.
pub open spec fn hex_decodes_to(text: Seq<u8>, bytes: Seq<u8>) -> bool {
    &&& text.len() == 2 * bytes.len()
    &&& forall|i: int| 0 <= i < bytes.len() ==> #[trigger] hex_pair(text, i) == Some(bytes[i])
}

/// Drops a leading `0x` or `0X`.
pub fn strip_prefix_0x(s: &str) -> (r: &str)
    ensures
        r.spec_bytes() == without_hex_prefix(s.spec_bytes()),
{
    let b = s.as_bytes();
    if b.len() >= 2 && b[0] == 0x30 && (b[1] == 0x78 || b[1] == 0x58) {
        proof {
            let bytes = s.spec_bytes();
            vstd::utf8::encode_utf8_valid_utf8(s@);
            assert(b@ == bytes);
            let b1 = vstd::utf8::pop_first_scalar(bytes);
            assert(vstd::utf8::length_of_first_scalar(bytes) == 1);
            assert(vstd::utf8::valid_utf8(b1));
            assert(b1[0] == bytes[1]);
            let b2 = vstd::utf8::pop_first_scalar(b1);
            assert(vstd::utf8::length_of_first_scalar(b1) == 1);
            assert(vstd::utf8::valid_utf8(b2));
            assert(vstd::utf8::is_char_boundary(b2, 0));
            assert(vstd::utf8::is_char_boundary(b1, 1));
            assert(vstd::utf8::is_char_boundary(bytes, 2));
        }
        let (_, rest) = s.split_at(2);
        rest
    } else {
        s
    }
}

fn hex_digit_value(c: u8) -> (r: Option<u8>)
    ensures
        r == hex_digit(c),
{
    if 0x30 <= c && c <= 0x39 {
        Some(c - 0x30)
    } else if 0x61 <= c && c <= 0x66 {
        Some(c - 0x61 + 10)
    } else if 0x41 <= c && c <= 0x46 {
        Some(c - 0x41 + 10)
    } else {
        None
    }
}

/// Decodes exactly `2 * N` hex digits into `N` bytes.
pub(crate) fn decode_hex<const N: usize>(text: &[u8]) -> (r: Option<[u8; N]>)
    requires
        N <= 64,
    ensures
        r is Some <==> is_hex_of_len(text@, N as nat),
        r matches Some(b) ==> hex_decodes_to(text@, b@),
{
    if text.len() != 2 * N {
        return None;
    }
    let mut out = [0u8; N];
    let mut i: usize = 0;
    while i < N
        invariant
            0 <= i <= N,
            N <= 64,
            text@.len() == 2 * N,
            out@.len() == N,
            forall|t: int| 0 <= t < i ==> #[trigger] hex_pair(text@, t) == Some(out@[t]),
        decreases N - i,
    {
        let hi = hex_digit_value(text[2 * i]);
        let lo = hex_digit_value(text[2 * i + 1]);
        match (hi, lo) {
            (Some(h), Some(l)) => {
                out[i] = 16 * h + l;
            },
            _ => {
                assert(hex_pair(text@, i as int) is None);
                return None;
            },
        }
        i = i + 1;
    }
    Some(out)
}

/// Why a hex argument was refused.
#[derive(Clone, Copy, Debug, PartialEq, Eq, Structural)]
pub enum ParseError {
    /// The text is not the expected number of hex digits.
    InvalidHex,
    /// The digits spell no valid secp256k1 secret key.
    InvalidSecretKey,
}

/// Parses a command-line value, with or without a `0x` prefix.
pub trait ArgParser<T> {
    /// The text is well formed for this parser.
    spec fn accepts(input: Seq<u8>) -> bool;

    /// `out` is what the text denotes.
    spec fn parses_to(input: Seq<u8>, out: T) -> bool;

    fn parse(input: &str) -> (r: Result<T, ParseError>)
        ensures
            r is Ok <==> Self::accepts(input.spec_bytes()),
            r matches Ok(v) ==> Self::parses_to(input.spec_bytes(), v),
    ;
}

/// Parses a 32-byte private key.
pub struct PrivkeyArgParser;

impl ArgParser<PrivkeyWrapper> for PrivkeyArgParser {
    open spec fn accepts(input: Seq<u8>) -> bool {
        exists|b: Seq<u8>|
            hex_decodes_to(without_hex_prefix(input), b) && b.len() == 32 && is_valid_secret(b)
    }

    open spec fn parses_to(input: Seq<u8>, out: PrivkeyWrapper) -> bool {
        hex_decodes_to(without_hex_prefix(input), out.0@) && is_valid_secret(out.0@)
    }

    fn parse(input: &str) -> (r: Result<PrivkeyWrapper, ParseError>) {
        let text = strip_prefix_0x(input).as_bytes();
        match decode_hex::<32>(text) {
            None => {
                assert forall|b: Seq<u8>|
                    !(hex_decodes_to(without_hex_prefix(input.spec_bytes()), b) && b.len()
                        == 32 && is_valid_secret(b)) by {
                    if hex_decodes_to(text@, b) && b.len() == 32 {
                        assert forall|i: int| 0 <= i < 32 implies #[trigger] hex_pair(text@, i)
                            is Some by {
                            assert(hex_pair(text@, i) == Some(b[i]));
                        }
                    }
                }
                Err(ParseError::InvalidHex)
            },
            Some(bytes) => {
                proof {
                    lemma_hex_unique(text@, bytes@);
                }
                if secret_is_valid(&bytes) {
                    Ok(PrivkeyWrapper(bytes))
                } else {
                    Err(ParseError::InvalidSecretKey)
                }
            },
        }
    }
}

/// Parses a 20-byte hash, such as a public-key hash or an Ethereum address.
pub struct Hash160ArgParser;

impl ArgParser<[u8; 20]> for Hash160ArgParser {
    open spec fn accepts(input: Seq<u8>) -> bool {
        is_hex_of_len(without_hex_prefix(input), 20)
    }

    open spec fn parses_to(input: Seq<u8>, out: [u8; 20]) -> bool {
        hex_decodes_to(without_hex_prefix(input), out@)
    }

    fn parse(input: &str) -> (r: Result<[u8; 20], ParseError>) {
        let text = strip_prefix_0x(input).as_bytes();
        match decode_hex::<20>(text) {
            None => Err(ParseError::InvalidHex),
            Some(bytes) => Ok(bytes),
        }
    }
}

/// A text spells at most one byte string.
pub proof fn lemma_hex_unique(text: Seq<u8>, b: Seq<u8>)
    requires
        hex_decodes_to(text, b),
    ensures
        forall|c: Seq<u8>| #[trigger] hex_decodes_to(text, c) ==> c == b,
{
    assert forall|c: Seq<u8>| #[trigger] hex_decodes_to(text, c) implies c == b by {
        assert forall|i: int| 0 <= i < b.len() implies c[i] == b[i] by {
            assert(hex_pair(text, i) == Some(c[i]));
            assert(hex_pair(text, i) == Some(b[i]));
        }
        assert(c =~= b);
    }
}

} // verus!
