use vstd::prelude::*;
use vstd::string::StringSliceAdditionalSpecFns;

verus! {

/// Why a hex string did not decode.
#[derive(Clone, Copy, Debug, PartialEq, Eq, Structural)]
pub enum HexError {
    /// `c`, at byte `index`, is not a hex digit.
    InvalidHexCharacter { c: char, index: usize },
    /// Hex digits come in pairs.
    OddLength,
    /// The digits do not fill a container of fixed size.
    InvalidStringLength,
}

/// Why a private key was refused.
#[derive(Clone, Copy, Debug, PartialEq, Eq, Structural)]
pub enum KeyError {
    /// The text is not a hex string.
    InvalidHex(HexError),
    /// The text decodes, but not to exactly 32 bytes.
    WrongLength,
}

/// The value of hex digit `b` (`0-9`, `a-f`, `A-F`), or `None` for any other byte.
pub open spec fn hex_digit(b: u8) -> Option<u8> {
    if 48 <= b <= 57 {
        Some((b - 48) as u8)
    } else if 65 <= b <= 70 {
        Some((b - 55) as u8)
    } else if 97 <= b <= 102 {
        Some((b - 87) as u8)
    } else {
        None
    }
}

/// Every byte of `s` is a hex digit.
pub open spec fn all_hex(s: Seq<u8>) -> bool {
    forall|i: int| 0 <= i < s.len() ==> #[trigger] hex_digit(s[i]) is Some
}

/// The bytes that the hex digit pairs of `s` spell, high digit first.
pub open spec fn hex_decoded(s: Seq<u8>) -> Seq<u8> {
    Seq::new(
        s.len() / 2,
        |i: int| (16 * hex_digit(s[2 * i])->Some_0 + hex_digit(s[2 * i + 1])->Some_0) as u8,
    )
}

/// `s` without its leading run of `0x` prefixes.
pub open spec fn strip_hex_prefix(s: Seq<u8>) -> Seq<u8>
    decreases s.len(),
{
    if s.len() >= 2 && s[0] == 48 && s[1] == 120 {
        strip_hex_prefix(s.subrange(2, s.len() as int))
    } else {
        s
    }
}

/// What decoding hex text `s` gives: an odd length is refused first, then the first
/// byte that is not a hex digit, and otherwise the decoded bytes.
pub open spec fn hex_decode_result_ok(s: Seq<u8>, r: Result<Vec<u8>, HexError>) -> bool {
    match r {
        Ok(v) => s.len() % 2 == 0 && all_hex(s) && v@ == hex_decoded(s),
        Err(HexError::OddLength) => s.len() % 2 == 1,
        Err(HexError::InvalidHexCharacter { c, index }) => {
            &&& s.len() % 2 == 0
            &&& index < s.len()
            &&& hex_digit(s[index as int]) is None
            &&& c == s[index as int] as char
            &&& forall|j: int| 0 <= j < index ==> #[trigger] hex_digit(s[j]) is Some
        },
        Err(HexError::InvalidStringLength) => false,
    }
}

/// Relies on `hex::decode` (hex 0.4): an odd length gives `OddLength`; otherwise the
/// first byte, in order, outside `0-9`, `a-f`, `A-F` gives `InvalidHexCharacter` with
/// that byte and its index; otherwise each pair of digits becomes one byte, high
/// digit first.
#[verifier::external_body]
fn decode_hex(text: &[u8]) -> (r: Result<Vec<u8>, HexError>)
    ensures
        hex_decode_result_ok(text@, r),
{
    match hex::decode(text) {
        Ok(bytes) => Ok(bytes),
        Err(hex::FromHexError::InvalidHexCharacter { c, index }) => Err(
            HexError::InvalidHexCharacter { c, index },
        ),
        Err(hex::FromHexError::OddLength) => Err(HexError::OddLength),
        Err(hex::FromHexError::InvalidStringLength) => Err(HexError::InvalidStringLength),
    }
}

/// Reads a 32-byte private key written in hex, with or without leading `0x`.
pub fn parse_private_key(text: &str) -> (r: Result<[u8; 32], KeyError>)
    ensures
        ({
            let digits = strip_hex_prefix(text.spec_bytes());
            &&& r matches Ok(key) ==> digits.len() == 64 && all_hex(digits) && key@ == hex_decoded(
                digits,
            )
            &&& r matches Err(KeyError::InvalidHex(e)) ==> hex_decode_result_ok(digits, Err(e))
            &&& r matches Err(KeyError::WrongLength) ==> digits.len() % 2 == 0 && all_hex(digits)
                && digits.len() != 64
        }),
{
    let bytes = text.as_bytes();
    let mut start: usize = 0;
    assert(bytes@.subrange(0, bytes@.len() as int) =~= bytes@);
    while bytes.len() - start >= 2 && bytes[start] == 48 && bytes[start + 1] == 120
        invariant
            start <= bytes@.len(),
            strip_hex_prefix(bytes@.subrange(start as int, bytes@.len() as int)) == strip_hex_prefix(
                bytes@,
            ),
        decreases bytes@.len() - start,
    {
        let ghost rest = bytes@.subrange(start as int, bytes@.len() as int);
        assert(rest.subrange(2, rest.len() as int) =~= bytes@.subrange(start + 2, bytes@.len() as int));
        start = start + 2;
    }
    let digits = vstd::slice::slice_subrange(bytes, start, bytes.len());
    assert(digits@ == strip_hex_prefix(bytes@));
    match decode_hex(digits) {
        Err(e) => Err(KeyError::InvalidHex(e)),
        Ok(decoded) => {
            if decoded.len() != 32 {
                Err(KeyError::WrongLength)
            } else {
                let mut key: [u8; 32] = [0u8; 32];
                let mut i: usize = 0;
                while i < 32
                    invariant
                        i <= 32,
                        decoded@.len() == 32,
                        forall|j: int| 0 <= j < i ==> key@[j] == decoded@[j],
                    decreases 32 - i,
                {
                    key[i] = decoded[i];
                    i = i + 1;
                }
                assert(key@ =~= decoded@);
                Ok(key)
            }
        },
    }
}

} // verus!
