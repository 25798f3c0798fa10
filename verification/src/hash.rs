//! Types for working with 32 bytes hashes.

use crate::text::{decimal_digits, decimal_string, push_char};
use vstd::prelude::*;
use vstd::utf8::encode_utf8;

verus! {

/// The length of the raw transaction hash.
pub const HASH_LENGTH: usize = 32;

/// Why a text is no hex encoding of the bytes asked for.
#[derive(Debug, Clone, Copy, PartialEq, Eq, Structural)]
pub enum HexError {
    /// An invalid character was found. Valid ones are: `0...9`, `a...f`
    /// or `A...F`.
    InvalidHexCharacter { c: char, index: usize },
    /// A hex string's length needs to be even, as two digits correspond to
    /// one byte.
    OddLength,
    /// The number of digits is not twice the number of bytes asked for.
    InvalidStringLength,
}

/// Why a value is no hash.
#[derive(Debug, Clone)]
pub enum Error {
    /// The byte slice has not the length of a hash.
    Temporary { error: String },
    /// The byte slice could not be converted.
    ConversionFailed,
    /// The text is no hex encoding of a hash.
    FromStringError(HexError),
}

/// Result for functions that may fail
pub type HashResult<T> = Result<T, Error>;

/// A hash, typically a sha-2 hash of a tx
#[derive(Clone, Debug, Hash, PartialEq, Eq)]
pub struct Hash(pub [u8; 32]);

/// The value of the hex digit that the byte `c` stands for, if it is one:
/// `0...9`, `a...f` or `A...F`.
pub open spec fn hex_digit_value(c: u8) -> Option<u8> {
    if 0x30 <= c <= 0x39 {
        Some((c - 0x30) as u8)
    } else if 0x41 <= c <= 0x46 {
        Some((c - 0x41 + 10) as u8)
    } else if 0x61 <= c <= 0x66 {
        Some((c - 0x61 + 10) as u8)
    } else {
        None
    }
}

/// The least index from `start` on whose byte is no hex digit.
pub open spec fn first_invalid_digit(text: Seq<u8>, start: int) -> Option<int>
    decreases text.len() - start,
{
    if start < 0 || start >= text.len() {
        None
    } else if hex_digit_value(text[start]) is None {
        Some(start)
    } else {
        first_invalid_digit(text, start + 1)
    }
}

/// What decoding the bytes of a hex text into `len` bytes gives: two digits
/// make one byte, the first of them the upper half.
pub open spec fn decode_hex(text: Seq<u8>, len: nat) -> Result<Seq<u8>, HexError> {
    if text.len() % 2 != 0 {
        Err(HexError::OddLength)
    } else if text.len() / 2 != len {
        Err(HexError::InvalidStringLength)
    } else {
        match first_invalid_digit(text, 0) {
            Some(index) => Err(
                HexError::InvalidHexCharacter { c: text[index] as char, index: index as usize },
            ),
            None => Ok(
                Seq::new(
                    len,
                    |i: int|
                        (hex_digit_value(text[2 * i])->0 * 16 + hex_digit_value(
                            text[2 * i + 1],
                        )->0) as u8,
                ),
            ),
        }
    }
}

/// The upper case hex digit for `d`.
pub open spec fn upper_hex_digit(d: nat) -> char {
    if d < 10 {
        (0x30 + d) as char
    } else {
        (0x41 + d - 10) as char
    }
}

/// The upper case hex text of `bytes`: two digits for each byte, the upper
/// half first.
pub open spec fn upper_hex(bytes: Seq<u8>) -> Seq<char> {
    Seq::new(
        2 * bytes.len(),
        |i: int|
            if i % 2 == 0 {
                upper_hex_digit((bytes[i / 2] / 16) as nat)
            } else {
                upper_hex_digit((bytes[i / 2] % 16) as nat)
            },
    )
}

/// What the SHA-256 digest of `data` is.
pub uninterp spec fn sha256_digest(data: Seq<u8>) -> Seq<u8>;

/// Decodes a hex text, given by its bytes, into 32 bytes.
///
/// Trusted: this is `hex::FromHex::from_hex` for `[u8; 32]`. The hex crate
/// first refuses an odd number of digits, then a number other than 64, and
/// then decodes pair by pair from the front, so that the error names the
/// first byte that is no hex digit. Both cases of the letters are taken.
#[verifier::external_body]
fn decode_hex_32(text: &[u8]) -> (decoded: Result<[u8; 32], HexError>)
    ensures
        match decoded {
            Ok(bytes) => decode_hex(text@, 32) == Ok::<Seq<u8>, HexError>(bytes@),
            Err(e) => decode_hex(text@, 32) == Err::<Seq<u8>, HexError>(e),
        },
{
    let decoded: Result<[u8; 32], hex::FromHexError> = hex::FromHex::from_hex(text);
    match decoded {
        Ok(bytes) => Ok(bytes),
        Err(hex::FromHexError::InvalidHexCharacter { c, index }) => Err(
            HexError::InvalidHexCharacter { c, index },
        ),
        Err(hex::FromHexError::OddLength) => Err(HexError::OddLength),
        Err(hex::FromHexError::InvalidStringLength) => Err(HexError::InvalidStringLength),
    }
}

/// Computes the SHA-256 digest of some bytes.
///
/// Trusted: this is `sha2::Sha256::digest`. The digest is a function of the
/// data alone; nothing more is claimed of it.
#[verifier::external_body]
fn sha256_of(data: &[u8]) -> (digest: [u8; 32])
    ensures
        digest@ == sha256_digest(data@),
{
    let digest = <sha2::Sha256 as sha2::Digest>::digest(data);
    *digest.as_ref()
}

fn upper_hex_char(d: u8) -> (c: char)
    requires
        d < 16,
    ensures
        c == upper_hex_digit(d as nat),
{
    if d == 0 {
        '0'
    } else if d == 1 {
        '1'
    } else if d == 2 {
        '2'
    } else if d == 3 {
        '3'
    } else if d == 4 {
        '4'
    } else if d == 5 {
        '5'
    } else if d == 6 {
        '6'
    } else if d == 7 {
        '7'
    } else if d == 8 {
        '8'
    } else if d == 9 {
        '9'
    } else if d == 10 {
        'A'
    } else if d == 11 {
        'B'
    } else if d == 12 {
        'C'
    } else if d == 13 {
        'D'
    } else if d == 14 {
        'E'
    } else {
        'F'
    }
}

impl Hash {
    /// The text that a slice of the wrong length is refused with.
    pub open spec fn length_error_text(len: nat) -> Seq<char> {
        "Unexpected tx hash length "@ + decimal_digits(len) + ", expected 32"@
    }

    /// The hash of all zeros.
    pub fn zero() -> (zero: Hash)
        ensures
            zero.0@ == Seq::new(32, |i: int| 0u8),
    {
        let zero = Hash([0u8; 32]);
        assert(zero.0@ =~= Seq::new(32, |i: int| 0u8));
        zero
    }

    /// The hash as 64 upper case hex digits.
    pub fn to_string(&self) -> (text: String)
        ensures
            text@ == upper_hex(self.0@),
    {
        let mut text = String::new();
        let mut i: usize = 0;
        while i < 32
            invariant
                i <= 32,
                text@ == upper_hex(self.0@).take(2 * i),
            decreases 32 - i,
        {
            let byte = self.0[i];
            push_char(&mut text, upper_hex_char(byte / 16));
            push_char(&mut text, upper_hex_char(byte % 16));
            i = i + 1;
            assert(text@ =~= upper_hex(self.0@).take(2 * i));
        }
        assert(upper_hex(self.0@).take(64) =~= upper_hex(self.0@));
        text
    }

    /// Compute sha256 of some bytes
    pub fn sha256(data: &[u8]) -> (hash: Hash)
        ensures
            hash.0@ == sha256_digest(data@),
    {
        Hash(sha256_of(data))
    }

    /// Check if the hash is all zeros
    pub fn is_zero(&self) -> (all_zero: bool)
        ensures
            all_zero == (self.0@ == Seq::new(32, |i: int| 0u8)),
    {
        let mut i: usize = 0;
        while i < 32
            invariant
                i <= 32,
                forall|j: int| 0 <= j < i ==> self.0@[j] == 0,
            decreases 32 - i,
        {
            if self.0[i] != 0 {
                return false;
            }
            i = i + 1;
        }
        assert(self.0@ =~= Seq::new(32, |i: int| 0u8));
        true
    }
}

impl<'a> core::convert::TryFrom<&'a [u8]> for Hash {
    type Error = Error;

    /// Makes a hash of a slice of exactly 32 bytes.
    fn try_from(value: &'a [u8]) -> (made: HashResult<Hash>)
        ensures
            match made {
                Ok(hash) => value@.len() == 32 && hash.0@ == value@,
                Err(Error::Temporary { error }) => value@.len() != 32 && error@
                    == Hash::length_error_text(value@.len()),
                Err(_) => false,
            },
    {
        if value.len() != HASH_LENGTH {
            let found = decimal_string(value.len() as u64);
            return Err(
                Error::Temporary {
                    error: String::from_str("Unexpected tx hash length ").concat(
                        found.as_str(),
                    ).concat(", expected 32"),
                },
            );
        }
        let mut hash: [u8; 32] = [0u8; 32];
        let mut i: usize = 0;
        while i < 32
            invariant
                i <= 32,
                value@.len() == 32,
                forall|j: int| 0 <= j < i ==> hash@[j] == value@[j],
            decreases 32 - i,
        {
            hash[i] = value[i];
            i = i + 1;
        }
        assert(hash@ =~= value@);
        Ok(Hash(hash))
    }
}

impl<'a> vstd::std_specs::convert::TryFromSpecImpl<&'a [u8]> for Hash {
    /// The result is stated by `try_from` itself.
    open spec fn obeys_try_from_spec() -> bool {
        false
    }

    open spec fn try_from_spec(value: &'a [u8]) -> HashResult<Hash> {
        arbitrary()
    }
}

impl<'a> core::convert::TryFrom<&'a str> for Hash {
    type Error = Error;

    /// Makes a hash of its hex text: 64 hex digits, in either case.
    fn try_from(string: &'a str) -> (made: HashResult<Hash>)
        ensures
            match made {
                Ok(hash) => decode_hex(encode_utf8(string@), 32) == Ok::<Seq<u8>, HexError>(
                    hash.0@,
                ),
                Err(Error::FromStringError(e)) => decode_hex(encode_utf8(string@), 32) == Err::<
                    Seq<u8>,
                    HexError,
                >(e),
                Err(_) => false,
            },
    {
        match decode_hex_32(string.as_bytes()) {
            Ok(bytes) => Ok(Hash(bytes)),
            Err(e) => Err(Error::FromStringError(e)),
        }
    }
}

impl<'a> vstd::std_specs::convert::TryFromSpecImpl<&'a str> for Hash {
    /// The result is stated by `try_from` itself.
    open spec fn obeys_try_from_spec() -> bool {
        false
    }

    open spec fn try_from_spec(string: &'a str) -> HashResult<Hash> {
        arbitrary()
    }
}

impl core::convert::TryFrom<String> for Hash {
    type Error = Error;

    /// Makes a hash of its hex text: 64 hex digits, in either case.
    fn try_from(string: String) -> (made: HashResult<Hash>)
        ensures
            match made {
                Ok(hash) => decode_hex(encode_utf8(string@), 32) == Ok::<Seq<u8>, HexError>(
                    hash.0@,
                ),
                Err(Error::FromStringError(e)) => decode_hex(encode_utf8(string@), 32) == Err::<
                    Seq<u8>,
                    HexError,
                >(e),
                Err(_) => false,
            },
    {
        Hash::try_from(string.as_str())
    }
}

impl vstd::std_specs::convert::TryFromSpecImpl<String> for Hash {
    /// The result is stated by `try_from` itself.
    open spec fn obeys_try_from_spec() -> bool {
        false
    }

    open spec fn try_from_spec(string: String) -> HashResult<Hash> {
        arbitrary()
    }
}

impl core::str::FromStr for Hash {
    type Err = Error;

    /// Makes a hash of its hex text: 64 hex digits, in either case.
    fn from_str(str: &str) -> (made: HashResult<Hash>)
        ensures
            match made {
                Ok(hash) => decode_hex(encode_utf8(str@), 32) == Ok::<Seq<u8>, HexError>(hash.0@),
                Err(Error::FromStringError(e)) => decode_hex(encode_utf8(str@), 32) == Err::<
                    Seq<u8>,
                    HexError,
                >(e),
                Err(_) => false,
            },
    {
        Hash::try_from(str)
    }
}

impl core::convert::AsRef<[u8]> for Hash {
    /// The bytes of the hash.
    fn as_ref(&self) -> (bytes: &[u8])
        ensures
            bytes@ == self.0@,
    {
        self.0.as_slice()
    }
}

impl core::ops::Deref for Hash {
    type Target = [u8; 32];

    /// The bytes of the hash.
    fn deref(&self) -> (bytes: &[u8; 32])
        ensures
            *bytes == self.0,
    {
        &self.0
    }
}

impl core::default::Default for Hash {
    /// The hash of all zeros.
    fn default() -> (zero: Hash)
        ensures
            zero.0@ == Seq::new(32, |i: int| 0u8),
    {
        Hash::zero()
    }
}

/// Where every byte from `start` on is a hex digit, none is found invalid,
/// and the byte that is found invalid is the first that is no hex digit.
pub proof fn lemma_first_invalid_digit(text: Seq<u8>, start: int)
    requires
        0 <= start,
    ensures
        match first_invalid_digit(text, start) {
            Some(index) => start <= index < text.len() && hex_digit_value(text[index]) is None
                && forall|i: int|
                start <= i < index ==> hex_digit_value(#[trigger] text[i]) is Some,
            None => forall|i: int|
                start <= i < text.len() ==> hex_digit_value(#[trigger] text[i]) is Some,
        },
    decreases text.len() - start,
{
    if start < text.len() && hex_digit_value(text[start]) is Some {
        lemma_first_invalid_digit(text, start + 1);
    }
}

/// A text decodes into `len` bytes exactly where it is `2 * len` hex digits.
pub proof fn lemma_decode_hex_succeeds(text: Seq<u8>, len: nat)
    ensures
        decode_hex(text, len) is Ok <==> text.len() == 2 * len && forall|i: int|
            0 <= i < text.len() ==> hex_digit_value(#[trigger] text[i]) is Some,
{
    lemma_first_invalid_digit(text, 0);
}

/// The upper case hex text of some bytes decodes to these bytes: writing a
/// hash as text and reading the text again gives the hash.
pub proof fn lemma_upper_hex_round_trip(bytes: Seq<u8>)
    ensures
        decode_hex(encode_utf8(upper_hex(bytes)), bytes.len()) == Ok::<Seq<u8>, HexError>(bytes),
{
    let chars = upper_hex(bytes);
    assert(vstd::utf8::is_ascii_chars(chars));
    vstd::utf8::is_ascii_chars_encode_utf8(chars);
    let text = encode_utf8(chars);
    assert forall|i: int| 0 <= i < text.len() implies hex_digit_value(#[trigger] text[i])
        == Some(
        if i % 2 == 0 {
            bytes[i / 2] / 16
        } else {
            bytes[i / 2] % 16
        },
    ) by {
        assert(text[i] == chars[i] as u8);
    }
    lemma_first_invalid_digit(text, 0);
    let decoded = Seq::new(
        bytes.len(),
        |i: int|
            (hex_digit_value(text[2 * i])->0 * 16 + hex_digit_value(text[2 * i + 1])->0) as u8,
    );
    assert(decoded =~= bytes) by {
        assert forall|i: int| 0 <= i < bytes.len() implies decoded[i] == bytes[i] by {
            assert(hex_digit_value(text[2 * i]) == Some(bytes[i] / 16));
            assert(hex_digit_value(text[2 * i + 1]) == Some(bytes[i] % 16));
        }
    }
}

} // verus!
