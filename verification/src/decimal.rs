//! Decimal numerals as they appear on the wire: ASCII digits with an optional sign.
//!
//! Writing is canonical (no sign on non-negative numbers, no leading zeros).
//! Reading is lenient in the usual way: a leading `+` and leading zeros are
//! accepted, an empty digit run is not.
use vstd::prelude::*;

verus! {

/// ASCII `0`.
pub const DIGIT_ZERO: u8 = 48;

/// ASCII `+`.
pub const PLUS: u8 = 43;

/// ASCII `-`.
pub const MINUS: u8 = 45;

/// The largest magnitude of a negative `i64`, 2^63.
pub const I64_MIN_MAGNITUDE: u64 = 9223372036854775808;

/// The largest magnitude of a negative `i32`, 2^31.
pub const I32_MIN_MAGNITUDE: u64 = 2147483648;

pub open spec fn is_digit(b: u8) -> bool {
    48 <= b <= 57
}

pub open spec fn all_digits(s: Seq<u8>) -> bool {
    forall|i: int| 0 <= i < s.len() ==> is_digit(#[trigger] s[i])
}

/// The number written by a run of decimal digits, most significant first.
pub open spec fn digits_value(s: Seq<u8>) -> nat
    decreases s.len(),
{
    if s.len() == 0 {
        0
    } else {
        digits_value(s.drop_last()) * 10 + (s.last() - 48) as nat
    }
}

/// The canonical digits of `n`: no leading zero unless `n` is zero.
pub open spec fn nat_digits(n: nat) -> Seq<u8>
    decreases n,
{
    if n < 10 {
        seq![(48 + n) as u8]
    } else {
        nat_digits(n / 10).push((48 + n % 10) as u8)
    }
}

/// The canonical numeral of `n`: a `-` before the digits of a negative number.
pub open spec fn int_digits(n: int) -> Seq<u8> {
    if n < 0 {
        seq![45u8] + nat_digits((-n) as nat)
    } else {
        nat_digits(n as nat)
    }
}

/// What an unsigned numeral denotes: an optional `+`, then one or more digits.
pub open spec fn parse_nat(s: Seq<u8>) -> Option<nat> {
    let body = if s.len() > 0 && s[0] == 43 {
        s.skip(1)
    } else {
        s
    };
    if body.len() > 0 && all_digits(body) {
        Some(digits_value(body))
    } else {
        None
    }
}

/// What a signed numeral denotes: an optional `+` or `-`, then one or more digits.
pub open spec fn parse_int(s: Seq<u8>) -> Option<int> {
    if s.len() > 0 && s[0] == 45 {
        let body = s.skip(1);
        if body.len() > 0 && all_digits(body) {
            Some(-(digits_value(body) as int))
        } else {
            None
        }
    } else {
        match parse_nat(s) {
            Some(n) => Some(n as int),
            None => None,
        }
    }
}

pub open spec fn spec_parse_u64(s: Seq<u8>) -> Option<u64> {
    match parse_nat(s) {
        Some(n) => if n <= u64::MAX {
            Some(n as u64)
        } else {
            None
        },
        None => None,
    }
}

pub open spec fn spec_parse_usize(s: Seq<u8>) -> Option<usize> {
    match parse_nat(s) {
        Some(n) => if n <= usize::MAX {
            Some(n as usize)
        } else {
            None
        },
        None => None,
    }
}

pub open spec fn spec_parse_u16(s: Seq<u8>) -> Option<u16> {
    match parse_nat(s) {
        Some(n) => if n <= u16::MAX {
            Some(n as u16)
        } else {
            None
        },
        None => None,
    }
}

pub open spec fn spec_parse_i64(s: Seq<u8>) -> Option<i64> {
    match parse_int(s) {
        Some(n) => if i64::MIN <= n <= i64::MAX {
            Some(n as i64)
        } else {
            None
        },
        None => None,
    }
}

pub open spec fn spec_parse_i32(s: Seq<u8>) -> Option<i32> {
    match parse_int(s) {
        Some(n) => if i32::MIN <= n <= i32::MAX {
            Some(n as i32)
        } else {
            None
        },
        None => None,
    }
}

/// A digit run is worth at least as much as any of its prefixes.
pub proof fn lemma_digits_value_prefix(s: Seq<u8>, k: int)
    requires
        all_digits(s),
        0 <= k <= s.len(),
    ensures
        digits_value(s.take(k)) <= digits_value(s),
    decreases s.len() - k,
{
    if k == s.len() {
        assert(s.take(k) =~= s);
    } else {
        let shorter = s.drop_last();
        assert(all_digits(shorter)) by {
            assert forall|i: int| 0 <= i < shorter.len() implies is_digit(
                #[trigger] shorter[i],
            ) by {
                assert(shorter[i] == s[i]);
            }
        }
        assert(shorter.take(k) =~= s.take(k));
        assert(is_digit(s[s.len() - 1]));
        lemma_digits_value_prefix(shorter, k);
    }
}

/// Appending one digit multiplies by ten and adds the digit.
pub proof fn lemma_digits_value_push(s: Seq<u8>, d: u8)
    ensures
        digits_value(s.push(d)) == digits_value(s) * 10 + (d - 48) as nat,
{
    assert(s.push(d).drop_last() =~= s);
}

/// Canonical digits are a non-empty run of digits that writes the number itself.
pub proof fn lemma_nat_digits(n: nat)
    ensures
        nat_digits(n).len() >= 1,
        all_digits(nat_digits(n)),
        digits_value(nat_digits(n)) == n,
    decreases n,
{
    if n < 10 {
        let s = nat_digits(n);
        assert(s.drop_last() =~= Seq::<u8>::empty());
        assert(digits_value(s.drop_last()) == 0);
    } else {
        lemma_nat_digits(n / 10);
        let d = (48 + n % 10) as u8;
        lemma_digits_value_push(nat_digits(n / 10), d);
        assert forall|i: int| 0 <= i < nat_digits(n).len() implies is_digit(
            #[trigger] nat_digits(n)[i],
        ) by {
            if i < nat_digits(n / 10).len() {
                assert(nat_digits(n)[i] == nat_digits(n / 10)[i]);
            }
        }
    }
}

/// Reading the canonical numeral of a natural number gives the number back.
pub proof fn lemma_parse_nat_digits(n: nat)
    ensures
        parse_nat(nat_digits(n)) == Some(n),
{
    lemma_nat_digits(n);
    assert(is_digit(nat_digits(n)[0]));
}

/// Reading the canonical numeral of an integer gives the integer back.
pub proof fn lemma_parse_int_digits(n: int)
    ensures
        parse_int(int_digits(n)) == Some(n),
{
    if n < 0 {
        let m = (-n) as nat;
        lemma_nat_digits(m);
        assert(int_digits(n).skip(1) =~= nat_digits(m));
    } else {
        lemma_nat_digits(n as nat);
        assert(is_digit(nat_digits(n as nat)[0]));
    }
}

/// A canonical numeral holds digits and at most a leading `-`: never a line break.
pub proof fn lemma_int_digits_bytes(n: int, i: int)
    requires
        0 <= i < int_digits(n).len(),
    ensures
        is_digit(int_digits(n)[i]) || (i == 0 && n < 0 && int_digits(n)[i] == 45),
{
    if n < 0 {
        lemma_nat_digits((-n) as nat);
        if i > 0 {
            assert(int_digits(n)[i] == nat_digits((-n) as nat)[i - 1]);
        }
    } else {
        lemma_nat_digits(n as nat);
    }
}

/// Reads the digits of `s` from `start` to its end as a number up to `limit`.
fn parse_digits(s: &[u8], start: usize, limit: u64) -> (r: Option<u64>)
    requires
        start <= s@.len(),
    ensures
        r == (if s@.len() > start && all_digits(s@.skip(start as int)) && digits_value(
            s@.skip(start as int),
        ) <= limit {
            Some(digits_value(s@.skip(start as int)) as u64)
        } else {
            None
        }),
{
    let ghost body = s@.skip(start as int);
    if s.len() == start {
        return None;
    }
    let mut acc: u64 = 0;
    let mut i: usize = start;
    while i < s.len()
        invariant
            start <= i <= s@.len(),
            body == s@.skip(start as int),
            all_digits(body.take(i - start)),
            acc == digits_value(body.take(i - start)),
            acc <= limit,
        decreases s@.len() - i,
    {
        let b = s[i];
        if b < DIGIT_ZERO || b > 57 {
            proof {
                assert(body[i - start] == b);
            }
            return None;
        }
        let d: u64 = (b - DIGIT_ZERO) as u64;
        proof {
            let next = body.take(i - start + 1);
            assert(next.drop_last() =~= body.take(i - start));
            assert(next.last() == b);
            assert(all_digits(next)) by {
                assert forall|j: int| 0 <= j < next.len() implies is_digit(#[trigger] next[j]) by {
                    if j < i - start {
                        assert(next[j] == body.take(i - start)[j]);
                    }
                }
            }
            assert(digits_value(next) == acc * 10 + d);
            if all_digits(body) {
                lemma_digits_value_prefix(body, i - start + 1);
            }
        }
        if acc > limit / 10 {
            return None;
        }
        if d > limit - acc * 10 {
            return None;
        }
        acc = acc * 10 + d;
        i = i + 1;
    }
    proof {
        assert(body.take(i - start) =~= body);
    }
    Some(acc)
}

/// Where the digits of an unsigned numeral begin: after a leading `+`, if any.
fn unsigned_start(s: &[u8]) -> (r: usize)
    ensures
        r == (if s@.len() > 0 && s@[0] == 43 {
            1int
        } else {
            0int
        }),
{
    if s.len() > 0 && s[0] == PLUS {
        1
    } else {
        0
    }
}

pub fn parse_u64(s: &[u8]) -> (r: Option<u64>)
    ensures
        r == spec_parse_u64(s@),
{
    let start = unsigned_start(s);
    proof {
        assert(s@.skip(0) =~= s@);
    }
    parse_digits(s, start, u64::MAX)
}

pub fn parse_usize(s: &[u8]) -> (r: Option<usize>)
    ensures
        r == spec_parse_usize(s@),
{
    let start = unsigned_start(s);
    proof {
        assert(s@.skip(0) =~= s@);
    }
    match parse_digits(s, start, usize::MAX as u64) {
        Some(n) => Some(n as usize),
        None => None,
    }
}

pub fn parse_u16(s: &[u8]) -> (r: Option<u16>)
    ensures
        r == spec_parse_u16(s@),
{
    let start = unsigned_start(s);
    proof {
        assert(s@.skip(0) =~= s@);
    }
    match parse_digits(s, start, 65535) {
        Some(n) => Some(n as u16),
        None => None,
    }
}

pub fn parse_i64(s: &[u8]) -> (r: Option<i64>)
    ensures
        r == spec_parse_i64(s@),
{
    if s.len() > 0 && s[0] == MINUS {
        match parse_digits(s, 1, I64_MIN_MAGNITUDE) {
            Some(m) => if m == I64_MIN_MAGNITUDE {
                Some(i64::MIN)
            } else {
                Some(-(m as i64))
            },
            None => None,
        }
    } else {
        let start = unsigned_start(s);
        proof {
            assert(s@.skip(0) =~= s@);
        }
        match parse_digits(s, start, 9223372036854775807) {
            Some(m) => Some(m as i64),
            None => None,
        }
    }
}

pub fn parse_i32(s: &[u8]) -> (r: Option<i32>)
    ensures
        r == spec_parse_i32(s@),
{
    if s.len() > 0 && s[0] == MINUS {
        match parse_digits(s, 1, I32_MIN_MAGNITUDE) {
            Some(m) => if m == I32_MIN_MAGNITUDE {
                Some(i32::MIN)
            } else {
                Some(-(m as i32))
            },
            None => None,
        }
    } else {
        let start = unsigned_start(s);
        proof {
            assert(s@.skip(0) =~= s@);
        }
        match parse_digits(s, start, 2147483647) {
            Some(m) => Some(m as i32),
            None => None,
        }
    }
}

/// Appends the canonical digits of `n` to `out`.
pub fn push_digits(n: u64, out: &mut Vec<u8>)
    ensures
        final(out)@ == old(out)@ + nat_digits(n as nat),
    decreases n,
{
    if n >= 10 {
        push_digits(n / 10, out);
    }
    out.push(DIGIT_ZERO + (n % 10) as u8);
    proof {
        assert(final(out)@ =~= old(out)@ + nat_digits(n as nat));
    }
}

/// Appends the canonical numeral of `n` to `out`.
pub fn push_int(n: i64, out: &mut Vec<u8>)
    ensures
        final(out)@ == old(out)@ + int_digits(n as int),
{
    if n < 0 {
        out.push(MINUS);
        let magnitude: u64 = if n == i64::MIN {
            I64_MIN_MAGNITUDE
        } else {
            (-n) as u64
        };
        push_digits(magnitude, out);
        proof {
            assert(final(out)@ =~= old(out)@ + int_digits(n as int));
        }
    } else {
        push_digits(n as u64, out);
    }
}

pub fn format_u64(n: u64) -> (r: Vec<u8>)
    ensures
        r@ == nat_digits(n as nat),
{
    let mut out: Vec<u8> = Vec::new();
    push_digits(n, &mut out);
    proof {
        assert(out@ =~= nat_digits(n as nat));
    }
    out
}

pub fn format_i64(n: i64) -> (r: Vec<u8>)
    ensures
        r@ == int_digits(n as int),
{
    let mut out: Vec<u8> = Vec::new();
    push_int(n, &mut out);
    proof {
        assert(out@ =~= int_digits(n as int));
    }
    out
}

} // verus!
