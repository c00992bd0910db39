//! Decimal integers as the API writes them: parsing numeric strings and
//! rendering numbers back to text.

use vstd::prelude::*;
use vstd::string::*;
use vstd::utf8::*;

verus! {

/// Why a numeric string was rejected, in the order in which the text is checked.
#[derive(Debug, Clone, Copy, PartialEq, Eq, Structural)]
pub enum IntErrorKind {
    /// The string was empty.
    Empty,
    /// A byte that is not a decimal digit (or a lone sign) was found.
    InvalidDigit,
    /// The value does not fit in the target type.
    PosOverflow,
}

impl IntErrorKind {
    /// The message that describes the error.
    pub fn message(&self) -> (s: &'static str)
        ensures
            s@ == self.spec_message(),
    {
        match self {
            IntErrorKind::Empty => "cannot parse integer from empty string",
            IntErrorKind::InvalidDigit => "invalid digit found in string",
            IntErrorKind::PosOverflow => "number too large to fit in target type",
        }
    }

    pub open spec fn spec_message(self) -> Seq<char> {
        match self {
            IntErrorKind::Empty => "cannot parse integer from empty string"@,
            IntErrorKind::InvalidDigit => "invalid digit found in string"@,
            IntErrorKind::PosOverflow => "number too large to fit in target type"@,
        }
    }
}

pub open spec fn is_digit(b: u8) -> bool {
    0x30 <= b <= 0x39
}

pub open spec fn digit_value(b: u8) -> nat {
    (b - 0x30) as nat
}

/// Scans `digits` from left to right, stopping at the first byte that is not a
/// digit or at the first prefix whose value exceeds `max`.
pub open spec fn scan_digits(digits: Seq<u8>, max: nat) -> Result<nat, IntErrorKind>
    decreases digits.len(),
{
    if digits.len() == 0 {
        Ok(0)
    } else {
        match scan_digits(digits.drop_last(), max) {
            Err(e) => Err(e),
            Ok(v) => if !is_digit(digits.last()) {
                Err(IntErrorKind::InvalidDigit)
            } else if v * 10 + digit_value(digits.last()) > max {
                Err(IntErrorKind::PosOverflow)
            } else {
                Ok(v * 10 + digit_value(digits.last()))
            },
        }
    }
}

/// The value of an unsigned decimal numeral at most `max`: an optional `+`
/// followed by decimal digits, as `str::parse` reads it for unsigned types.
pub open spec fn parse_unsigned(s: Seq<u8>, max: nat) -> Result<nat, IntErrorKind> {
    if s.len() == 0 {
        Err(IntErrorKind::Empty)
    } else if s.len() == 1 && (s[0] == 0x2b || s[0] == 0x2d) {
        Err(IntErrorKind::InvalidDigit)
    } else if s[0] == 0x2b {
        scan_digits(s.drop_first(), max)
    } else {
        scan_digits(s, max)
    }
}

/// The plain value of a sequence of decimal digits.
pub open spec fn digits_value(digits: Seq<u8>) -> nat
    decreases digits.len(),
{
    if digits.len() == 0 {
        0
    } else {
        digits_value(digits.drop_last()) * 10 + digit_value(digits.last())
    }
}

pub open spec fn all_digits(digits: Seq<u8>) -> bool {
    forall|i: int| 0 <= i < digits.len() ==> is_digit(#[trigger] digits[i])
}

/// A successful scan reads only digits, and its result is their plain value.
pub proof fn lemma_scan_digits_ok(digits: Seq<u8>, max: nat)
    ensures
        scan_digits(digits, max) is Ok <==> (all_digits(digits) && digits_value(digits) <= max),
        scan_digits(digits, max) is Ok ==> scan_digits(digits, max) == Ok::<nat, IntErrorKind>(
            digits_value(digits),
        ),
    decreases digits.len(),
{
    if digits.len() > 0 {
        let p = digits.drop_last();
        lemma_scan_digits_ok(p, max);
        if all_digits(digits) {
            assert(all_digits(p)) by {
                assert forall|i: int| 0 <= i < p.len() implies is_digit(#[trigger] p[i]) by {
                    assert(p[i] == digits[i]);
                }
            }
            assert(is_digit(digits[digits.len() - 1]));
        }
        if all_digits(p) && is_digit(digits.last()) {
            assert forall|i: int| 0 <= i < digits.len() implies is_digit(#[trigger] digits[i]) by {
                if i < p.len() {
                    assert(p[i] == digits[i]);
                }
            }
        }
    }
}

/// The decimal digits of `n`, most significant first, without leading zeros.
pub open spec fn decimal_digits(n: nat) -> Seq<u8>
    decreases n,
{
    if n < 10 {
        seq![(n + 0x30) as u8]
    } else {
        decimal_digits(n / 10).push(((n % 10) + 0x30) as u8)
    }
}

/// The decimal text of `n`.
pub open spec fn decimal_chars(n: nat) -> Seq<char> {
    decimal_digits(n).map_values(|b: u8| b as char)
}

pub proof fn lemma_decimal_digits(n: nat)
    ensures
        decimal_digits(n).len() >= 1,
        all_digits(decimal_digits(n)),
        digits_value(decimal_digits(n)) == n,
        decimal_digits(n)[0] != 0x2b,
    decreases n,
{
    if n >= 10 {
        lemma_decimal_digits(n / 10);
        let d = decimal_digits(n);
        let p = decimal_digits(n / 10);
        assert(d.drop_last() =~= p);
        assert(d.last() == ((n % 10) + 0x30) as u8);
        assert(digit_value(d.last()) == n % 10);
        assert((n / 10) * 10 + n % 10 == n);
        assert forall|i: int| 0 <= i < d.len() implies is_digit(#[trigger] d[i]) by {
            if i < p.len() {
                assert(d[i] == p[i]);
            }
        }
    } else {
        let d = decimal_digits(n);
        assert(d.drop_last() =~= Seq::<u8>::empty());
        assert(digits_value(Seq::<u8>::empty()) == 0);
    }
}

/// Rendering a number in decimal and reading it back gives the number again,
/// for every number that fits the target bound.
pub proof fn lemma_parse_decimal_roundtrip(n: nat, max: nat)
    requires
        n <= max,
    ensures
        parse_unsigned(decimal_digits(n), max) == Ok::<nat, IntErrorKind>(n),
{
    lemma_decimal_digits(n);
    lemma_scan_digits_ok(decimal_digits(n), max);
    let d = decimal_digits(n);
    if d.len() == 1 {
        assert(is_digit(d[0]));
    }
}

/// The UTF-8 bytes of the decimal text of `n` are its decimal digits.
pub proof fn lemma_decimal_chars_bytes(n: nat)
    ensures
        encode_utf8(decimal_chars(n)) == decimal_digits(n),
        vstd::utf8::is_ascii_chars(decimal_chars(n)),
{
    lemma_decimal_digits(n);
    let c = decimal_chars(n);
    let d = decimal_digits(n);
    assert(vstd::utf8::is_ascii_chars(c)) by {
        assert forall|i| 0 <= i < c.len() implies '\0' <= #[trigger] c[i] <= '\u{7f}' by {
            assert(is_digit(d[i]));
        }
    }
    vstd::utf8::is_ascii_chars_encode_utf8(c);
    assert forall|i| 0 <= i < d.len() implies encode_utf8(c)[i] == d[i] by {
        assert(is_digit(d[i]));
        assert(c[i] as u8 == d[i]);
    }
    assert(encode_utf8(c) =~= d);
}

/// Parses `s` as an unsigned decimal number no greater than `max`.
pub fn parse_decimal(s: &str, max: u32) -> (r: Result<u32, IntErrorKind>)
    ensures
        match r {
            Ok(v) => parse_unsigned(s.spec_bytes(), max as nat) == Ok::<nat, IntErrorKind>(v as nat),
            Err(e) => parse_unsigned(s.spec_bytes(), max as nat) == Err::<nat, IntErrorKind>(e),
        },
{
    let b = s.as_bytes();
    let n = b.len();
    if n == 0 {
        return Err(IntErrorKind::Empty);
    }
    if n == 1 && (b[0] == 0x2b || b[0] == 0x2d) {
        return Err(IntErrorKind::InvalidDigit);
    }
    let start: usize = if b[0] == 0x2b { 1 } else { 0 };
    let ghost digits = if b[0] == 0x2b { b@.drop_first() } else { b@ };
    assert(digits =~= b@.subrange(start as int, n as int));
    assert(parse_unsigned(b@, max as nat) == scan_digits(digits, max as nat));
    let mut acc: u64 = 0;
    let mut i: usize = start;
    while i < n
        invariant
            start <= i <= n,
            n == b@.len(),
            b@ == s.spec_bytes(),
            digits =~= b@.subrange(start as int, n as int),
            parse_unsigned(b@, max as nat) == scan_digits(digits, max as nat),
            acc <= max,
            scan_digits(digits.take(i - start), max as nat) == Ok::<nat, IntErrorKind>(acc as nat),
        decreases n - i,
    {
        let c = b[i];
        let ghost pre = digits.take(i - start);
        let ghost next = digits.take(i + 1 - start);
        assert(next.drop_last() =~= pre);
        assert(next.last() == c);
        if c < 0x30 || c > 0x39 {
            assert(scan_digits(next, max as nat) == Err::<nat, IntErrorKind>(IntErrorKind::InvalidDigit));
            proof { lemma_scan_error_persists(digits, (i + 1 - start) as int, max as nat); }
            assert(digits.take(digits.len() as int) =~= digits);
            assert(scan_digits(digits, max as nat) == Err::<nat, IntErrorKind>(IntErrorKind::InvalidDigit));
            assert(parse_unsigned(b@, max as nat) == scan_digits(digits, max as nat));
            return Err(IntErrorKind::InvalidDigit);
        }
        let v = acc * 10 + (c - 0x30) as u64;
        if v > max as u64 {
            assert(scan_digits(next, max as nat) == Err::<nat, IntErrorKind>(IntErrorKind::PosOverflow));
            proof { lemma_scan_error_persists(digits, (i + 1 - start) as int, max as nat); }
            assert(digits.take(digits.len() as int) =~= digits);
            assert(parse_unsigned(b@, max as nat) == scan_digits(digits, max as nat));
            return Err(IntErrorKind::PosOverflow);
        }
        acc = v;
        i = i + 1;
    }
    assert(digits.take(n - start) =~= digits);
    Ok(acc as u32)
}

/// Once a prefix of the digits is rejected, the whole text is rejected the same way.
pub proof fn lemma_scan_error_persists(digits: Seq<u8>, k: int, max: nat)
    requires
        0 <= k <= digits.len(),
        scan_digits(digits.take(k), max) is Err,
    ensures
        scan_digits(digits, max) == scan_digits(digits.take(k), max),
    decreases digits.len() - k,
{
    if k < digits.len() {
        let next = digits.take(k + 1);
        assert(next.drop_last() =~= digits.take(k));
        lemma_scan_error_persists(digits, k + 1, max);
    } else {
        assert(digits.take(k) =~= digits);
    }
}

/// The text of a single decimal digit.
fn digit_str(d: u64) -> (s: &'static str)
    requires
        d < 10,
    ensures
        s@ == seq![(d + 0x30) as u8 as char],
{
    match d {
        0 => { proof { reveal_strlit("0"); } "0" },
        1 => { proof { reveal_strlit("1"); } "1" },
        2 => { proof { reveal_strlit("2"); } "2" },
        3 => { proof { reveal_strlit("3"); } "3" },
        4 => { proof { reveal_strlit("4"); } "4" },
        5 => { proof { reveal_strlit("5"); } "5" },
        6 => { proof { reveal_strlit("6"); } "6" },
        7 => { proof { reveal_strlit("7"); } "7" },
        8 => { proof { reveal_strlit("8"); } "8" },
        _ => { proof { reveal_strlit("9"); } "9" },
    }
}

/// Renders `n` in decimal, as `Display` does for unsigned integers.
pub fn decimal_string(n: u64) -> (s: String)
    ensures
        s@ == decimal_chars(n as nat),
    decreases n,
{
    if n < 10 {
        let s = digit_str(n).to_owned();
        assert(s@ =~= decimal_chars(n as nat));
        s
    } else {
        let mut s = decimal_string(n / 10);
        s.append(digit_str(n % 10));
        assert(s@ =~= decimal_chars(n as nat)) by {
            assert(decimal_digits(n as nat) == decimal_digits((n / 10) as nat).push(
                ((n % 10) + 0x30) as u8,
            ));
        }
        s
    }
}

} // verus!
