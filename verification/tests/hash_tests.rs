use staking_ledger::hash::{Error, HexError, HASH_LENGTH};
use std::str::FromStr;

type Hash = staking_ledger::hash::Hash;

fn hash_of(bytes: [u8; 32]) -> Hash {
    staking_ledger::hash::Hash(bytes)
}

fn counting() -> [u8; 32] {
    let mut bytes = [0u8; 32];
    for (i, byte) in bytes.iter_mut().enumerate() {
        *byte = (i as u8) * 8 + 3;
    }
    bytes
}

#[test]
fn hash_length_is_32() {
    assert_eq!(HASH_LENGTH, 32);
}

#[test]
fn hash_is_shown_as_upper_case_hex() {
    assert_eq!(
        hash_of([0u8; 32]).to_string(),
        "0000000000000000000000000000000000000000000000000000000000000000"
    );
    assert_eq!(
        hash_of([0xAB; 32]).to_string(),
        "ABABABABABABABABABABABABABABABABABABABABABABABABABABABABABABABAB"
    );
    assert_eq!(
        hash_of(counting()).to_string(),
        "030B131B232B333B434B535B636B737B838B939BA3ABB3BBC3CBD3DBE3EBF3FB"
    );
    let mut bytes = [0u8; 32];
    bytes[0] = 0x0F;
    bytes[1] = 0xF0;
    bytes[31] = 0x9A;
    assert_eq!(
        hash_of(bytes).to_string(),
        "0FF000000000000000000000000000000000000000000000000000000000009A"
    );
}

#[test]
fn hash_text_round_trips() {
    for bytes in [[0u8; 32], [0xFF; 32], [0x5A; 32], counting()] {
        let hash = hash_of(bytes);
        let text = hash.to_string();
        assert_eq!(text.len(), 64);
        let read = Hash::try_from(text.as_str()).unwrap();
        assert_eq!(read, hash);
        assert_eq!(read.to_string(), text);
    }
}

#[test]
fn hash_is_read_from_either_case() {
    let upper = "030B131B232B333B434B535B636B737B838B939BA3ABB3BBC3CBD3DBE3EBF3FB";
    let lower = "030b131b232b333b434b535b636b737b838b939ba3abb3bbc3cbd3dbe3ebf3fb";
    let mixed = "030b131B232b333B434b535B636b737B838b939BA3abB3bbC3cbD3dbE3ebF3fb";
    assert_eq!(Hash::try_from(upper).unwrap(), hash_of(counting()));
    assert_eq!(Hash::try_from(lower).unwrap(), hash_of(counting()));
    assert_eq!(Hash::try_from(mixed).unwrap(), hash_of(counting()));
    assert_eq!(Hash::from_str(lower).unwrap(), hash_of(counting()));
    assert_eq!(Hash::try_from(lower.to_string()).unwrap(), hash_of(counting()));
}

#[test]
fn test_hash_string() {
    let samples = [
        "0123456789abcdefABCDEF0123456789abcdefABCDEF0123456789abcdefABCD",
        "ffffffffffffffffffffffffffffffffffffffffffffffffffffffffffffffff",
        "AAAAAAAAAAAAAAAAAAAAAAAAAAAAAAAAAAAAAAAAAAAAAAAAAAAAAAAAAAAAAAAA",
        "a0B1c2D3e4F5a6B7c8D9e0F1a2B3c4D5e6F7a8B9c0D1e2F3a4B5c6D7e8F9a0B1",
    ];
    for hex_hash in samples {
        let _: Hash = hex_hash.to_string().try_into().unwrap();
    }
}

fn hex_error(text: &str) -> HexError {
    match Hash::try_from(text) {
        Err(Error::FromStringError(e)) => e,
        other => panic!("unexpected {:?}", other),
    }
}

#[test]
fn hash_text_of_odd_length_is_refused() {
    assert_eq!(hex_error("abc"), HexError::OddLength);
    assert_eq!(hex_error(&"a".repeat(63)), HexError::OddLength);
    assert_eq!(hex_error(&"a".repeat(65)), HexError::OddLength);
    // The length is looked at before the digits.
    assert_eq!(hex_error("xyz"), HexError::OddLength);
}

#[test]
fn hash_text_of_wrong_length_is_refused() {
    assert_eq!(hex_error(""), HexError::InvalidStringLength);
    assert_eq!(hex_error("ab"), HexError::InvalidStringLength);
    assert_eq!(hex_error(&"a".repeat(62)), HexError::InvalidStringLength);
    assert_eq!(hex_error(&"a".repeat(66)), HexError::InvalidStringLength);
    assert_eq!(hex_error(&"a".repeat(128)), HexError::InvalidStringLength);
    assert_eq!(hex_error("zz"), HexError::InvalidStringLength);
}

#[test]
fn hash_text_with_an_invalid_digit_is_refused() {
    let mut text = "0".repeat(64);
    text.replace_range(10..11, "g");
    assert_eq!(hex_error(&text), HexError::InvalidHexCharacter { c: 'g', index: 10 });
    let mut text = "0".repeat(64);
    text.replace_range(63..64, " ");
    assert_eq!(hex_error(&text), HexError::InvalidHexCharacter { c: ' ', index: 63 });
    // The first invalid digit is the one that is named.
    let mut text = "f".repeat(64);
    text.replace_range(4..5, "x");
    text.replace_range(3..4, "-");
    assert_eq!(hex_error(&text), HexError::InvalidHexCharacter { c: '-', index: 3 });
    assert_eq!(
        hex_error(&"G".repeat(64)),
        HexError::InvalidHexCharacter { c: 'G', index: 0 }
    );
}

#[test]
fn hash_text_is_measured_in_bytes() {
    // 62 digits and one character of two bytes make 64 bytes.
    let text = format!("{}{}", "0".repeat(62), "\u{e9}");
    assert_eq!(text.len(), 64);
    assert_eq!(
        hex_error(&text),
        HexError::InvalidHexCharacter { c: '\u{c3}', index: 62 }
    );
}

#[test]
fn hash_is_made_of_a_slice_of_32_bytes() {
    let bytes = counting();
    assert_eq!(Hash::try_from(&bytes[..]).unwrap(), hash_of(bytes));
    assert_eq!(Hash::try_from(&[0u8; 32][..]).unwrap(), hash_of([0u8; 32]));
}

fn length_error(bytes: &[u8]) -> String {
    match Hash::try_from(bytes) {
        Err(Error::Temporary { error }) => error,
        other => panic!("unexpected {:?}", other),
    }
}

#[test]
fn hash_of_a_slice_of_another_length_is_refused() {
    assert_eq!(length_error(&[]), "Unexpected tx hash length 0, expected 32");
    assert_eq!(length_error(&[1u8; 31]), "Unexpected tx hash length 31, expected 32");
    assert_eq!(length_error(&[1u8; 33]), "Unexpected tx hash length 33, expected 32");
    assert_eq!(length_error(&[1u8; 100]), "Unexpected tx hash length 100, expected 32");
}

#[test]
fn sha256_of_known_inputs() {
    assert_eq!(
        Hash::sha256(b"").to_string(),
        "E3B0C44298FC1C149AFBF4C8996FB92427AE41E4649B934CA495991B7852B855"
    );
    assert_eq!(
        Hash::sha256(b"abc").to_string(),
        "BA7816BF8F01CFEA414140DE5DAE2223B00361A396177A9CB410FF61F20015AD"
    );
}

#[test]
fn sha256_is_no_copy_of_its_input() {
    let input = [7u8; 32];
    let hash = Hash::sha256(&input);
    assert_ne!(hash.0, input);
    assert_eq!(hash, Hash::sha256(&input));
    assert_ne!(hash, Hash::sha256(&[7u8; 31]));
}

#[test]
fn is_zero_only_of_all_zeros() {
    assert!(hash_of([0u8; 32]).is_zero());
    assert!(Hash::zero().is_zero());
    assert!(Hash::default().is_zero());
    let mut bytes = [0u8; 32];
    bytes[31] = 1;
    assert!(!hash_of(bytes).is_zero());
    let mut bytes = [0u8; 32];
    bytes[0] = 0x80;
    assert!(!hash_of(bytes).is_zero());
    assert!(!Hash::sha256(b"").is_zero());
}

#[test]
fn hash_gives_its_bytes() {
    let hash = hash_of(counting());
    let bytes: &[u8] = hash.as_ref();
    assert_eq!(bytes, &counting()[..]);
    assert_eq!(bytes.len(), 32);
    let array: &[u8; 32] = &hash;
    assert_eq!(array, &counting());
    assert_eq!(hash[1], 11);
    assert_eq!(hash.len(), 32);
}
