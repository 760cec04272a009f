//! Hexadecimal text to bytes.
use vstd::prelude::*;
use vstd::string::*;

verus! {

/// Why a text is not the hexadecimal writing of bytes.
#[derive(Debug, Clone, Copy, PartialEq, Eq)]
pub enum HexError {
    /// Some pair of characters is not a hexadecimal numeral.
    InvalidDigit,
    /// Every pair is a numeral, but one character is left over.
    OddLength,
}

/// The value of one hexadecimal digit, in either case.
pub open spec fn hex_digit_value(b: u8) -> Option<u8> {
    if 48 <= b <= 57 {
        Some((b - 48) as u8)
    } else if 97 <= b <= 102 {
        Some((b - 87) as u8)
    } else if 65 <= b <= 70 {
        Some((b - 55) as u8)
    } else {
        None
    }
}

/// The byte that a pair of characters writes as a hexadecimal numeral: two
/// digits, or a `+` and one digit.
pub open spec fn hex_pair_value(first: u8, second: u8) -> Option<u8> {
    match (hex_digit_value(first), hex_digit_value(second)) {
        (Some(high), Some(low)) => Some((high * 16 + low) as u8),
        (None, Some(low)) => if first == 43 {
            Some(low)
        } else {
            None
        },
        _ => None,
    }
}

/// The byte that the pair of characters number `k` of `s` writes.
pub open spec fn hex_pair_at(s: Seq<u8>, k: int) -> Option<u8> {
    hex_pair_value(s[2 * k], s[2 * k + 1])
}

/// The bytes that `s` writes, pair by pair.
pub open spec fn spec_decode_hex(s: Seq<u8>) -> Result<Seq<u8>, HexError> {
    if exists|k: int| 0 <= k < s.len() / 2 && #[trigger] hex_pair_at(s, k) is None {
        Err(HexError::InvalidDigit)
    } else if s.len() % 2 == 1 {
        Err(HexError::OddLength)
    } else {
        Ok(Seq::new(s.len() / 2, |k: int| hex_pair_at(s, k)->Some_0))
    }
}

fn hex_digit(b: u8) -> (r: Option<u8>)
    ensures
        r == hex_digit_value(b),
{
    if 48 <= b && b <= 57 {
        Some(b - 48)
    } else if 97 <= b && b <= 102 {
        Some(b - 87)
    } else if 65 <= b && b <= 70 {
        Some(b - 55)
    } else {
        None
    }
}

fn hex_pair(first: u8, second: u8) -> (r: Option<u8>)
    ensures
        r == hex_pair_value(first, second),
{
    match (hex_digit(first), hex_digit(second)) {
        (Some(high), Some(low)) => Some(high * 16 + low),
        (None, Some(low)) => if first == 43 {
            Some(low)
        } else {
            None
        },
        _ => None,
    }
}

/// The bytes that the hexadecimal text `s` writes.
pub fn decode_hex(s: &str) -> (r: Result<Vec<u8>, HexError>)
    ensures
        match spec_decode_hex(s.spec_bytes()) {
            Ok(bytes) => r matches Ok(decoded) && decoded@ == bytes,
            Err(e) => r matches Err(x) && x == e,
        },
{
    let text = s.as_bytes();
    let pairs = text.len() / 2;
    let mut decoded: Vec<u8> = Vec::new();
    let mut k: usize = 0;
    while k < pairs
        invariant
            text@ == s.spec_bytes(),
            pairs == text@.len() / 2,
            2 * pairs <= text@.len() <= usize::MAX,
            k <= pairs,
            decoded@.len() == k,
            forall|j: int| 0 <= j < k ==> #[trigger] hex_pair_at(text@, j) == Some(decoded@[j]),
        decreases pairs - k,
    {
        match hex_pair(text[2 * k], text[2 * k + 1]) {
            Some(byte) => {
                decoded.push(byte);
            },
            None => {
                proof {
                    assert(hex_pair_at(text@, k as int) is None);
                }
                return Err(HexError::InvalidDigit);
            },
        }
        k = k + 1;
    }
    if text.len() % 2 == 1 {
        return Err(HexError::OddLength);
    }
    proof {
        assert(decoded@ =~= spec_decode_hex(text@)->Ok_0);
    }
    Ok(decoded)
}

} // verus!
