//! Reading decimal integers from text, as `str::parse` does for the integer
//! types: an optional sign, ASCII digits, and range checking.

use vstd::prelude::*;

verus! {

/// Why a text is not an integer of the wanted type.
#[derive(Debug, Clone, Copy, PartialEq, Eq, Structural)]
pub enum IntErrorKind {
    /// The text is empty.
    Empty,
    /// A character is not a digit, or the text is a lone sign.
    InvalidDigit,
    /// The value is above the type's range.
    PosOverflow,
    /// The value is below the type's range.
    NegOverflow,
}

/// The message of a parse error, as `ParseIntError` writes it.
pub open spec fn int_error_text(k: IntErrorKind) -> Seq<char> {
    match k {
        IntErrorKind::Empty => "cannot parse integer from empty string"@,
        IntErrorKind::InvalidDigit => "invalid digit found in string"@,
        IntErrorKind::PosOverflow => "number too large to fit in target type"@,
        IntErrorKind::NegOverflow => "number too small to fit in target type"@,
    }
}

impl IntErrorKind {
    /// The error's message.
    pub fn message(&self) -> (s: &'static str)
        ensures
            s@ == int_error_text(*self),
    {
        match self {
            IntErrorKind::Empty => "cannot parse integer from empty string",
            IntErrorKind::InvalidDigit => "invalid digit found in string",
            IntErrorKind::PosOverflow => "number too large to fit in target type",
            IntErrorKind::NegOverflow => "number too small to fit in target type",
        }
    }
}

/// An ASCII decimal digit.
pub open spec fn is_digit(c: char) -> bool {
    '0' <= c <= '9'
}

/// Reading digits left to right onto `acc`; the magnitude may not pass `max`.
pub open spec fn scan_digits(s: Seq<char>, acc: int, max: int) -> Result<int, IntErrorKind>
    decreases s.len(),
{
    if s.len() == 0 {
        Ok(acc)
    } else if !is_digit(s[0]) {
        Err(IntErrorKind::InvalidDigit)
    } else {
        let a = acc * 10 + (s[0] as int - 48);
        if a > max {
            Err(IntErrorKind::PosOverflow)
        } else {
            scan_digits(s.drop_first(), a, max)
        }
    }
}

/// The value of a text read as an unsigned integer no larger than `max`: a
/// `+` may lead, and a `-` is not a digit.
pub open spec fn parse_unsigned(s: Seq<char>, max: int) -> Result<int, IntErrorKind> {
    if s.len() == 0 {
        Err(IntErrorKind::Empty)
    } else if (s[0] == '+' || s[0] == '-') && s.len() == 1 {
        Err(IntErrorKind::InvalidDigit)
    } else if s[0] == '+' {
        scan_digits(s.drop_first(), 0, max)
    } else {
        scan_digits(s, 0, max)
    }
}

/// The value of a text read as a signed integer of range `-(max + 1)` to
/// `max`: a `+` or `-` may lead.
pub open spec fn parse_signed(s: Seq<char>, max: int) -> Result<int, IntErrorKind> {
    if s.len() == 0 {
        Err(IntErrorKind::Empty)
    } else if (s[0] == '+' || s[0] == '-') && s.len() == 1 {
        Err(IntErrorKind::InvalidDigit)
    } else if s[0] == '-' {
        match scan_digits(s.drop_first(), 0, max + 1) {
            Ok(v) => Ok(-v),
            Err(IntErrorKind::PosOverflow) => Err(IntErrorKind::NegOverflow),
            Err(e) => Err(e),
        }
    } else if s[0] == '+' {
        scan_digits(s.drop_first(), 0, max)
    } else {
        scan_digits(s, 0, max)
    }
}

proof fn lemma_scan_bounds(s: Seq<char>, acc: int, max: int)
    requires
        0 <= acc <= max,
    ensures
        scan_digits(s, acc, max) matches Ok(v) ==> 0 <= v <= max,
    decreases s.len(),
{
    if s.len() > 0 && is_digit(s[0]) {
        let a = acc * 10 + (s[0] as int - 48);
        if a <= max {
            lemma_scan_bounds(s.drop_first(), a, max);
        }
    }
}

/// Reads the digits of `s` from position `start` on, with magnitude at most `max`.
fn scan(s: &str, start: usize, max: u64) -> (r: Result<u64, IntErrorKind>)
    requires
        start <= s@.len(),
    ensures
        match scan_digits(s@.skip(start as int), 0, max as int) {
            Ok(v) => r == Ok::<u64, IntErrorKind>(v as u64),
            Err(e) => r == Err::<u64, IntErrorKind>(e),
        },
{
    let n = s.unicode_len();
    let mut acc: u64 = 0;
    let mut i: usize = start;
    while i < n
        invariant
            n == s@.len(),
            start <= i <= n,
            acc <= max,
            scan_digits(s@.skip(start as int), 0, max as int) == scan_digits(s@.skip(i as int), acc as int, max as int),
        decreases n - i,
    {
        let c = s.get_char(i);
        proof {
            assert(s@.skip(i as int)[0] == c);
            assert(s@.skip(i as int).drop_first() =~= s@.skip(i + 1));
        }
        if !('0' <= c && c <= '9') {
            return Err(IntErrorKind::InvalidDigit);
        }
        let d = (c as u32 - 48) as u64;
        let a: u128 = (acc as u128) * 10 + (d as u128);
        if a > max as u128 {
            return Err(IntErrorKind::PosOverflow);
        }
        acc = a as u64;
        i = i + 1;
    }
    proof {
        assert(s@.skip(i as int).len() == 0);
    }
    Ok(acc)
}

/// Reads an unsigned integer no larger than `max`, as `str::parse` does.
pub fn parse_unsigned_max(s: &str, max: u64) -> (r: Result<u64, IntErrorKind>)
    ensures
        match parse_unsigned(s@, max as int) {
            Ok(v) => r == Ok::<u64, IntErrorKind>(v as u64),
            Err(e) => r == Err::<u64, IntErrorKind>(e),
        },
        r matches Ok(v) ==> v <= max,
{
    proof {
        lemma_scan_bounds(s@, 0, max as int);
        lemma_scan_bounds(s@.drop_first(), 0, max as int);
    }
    let n = s.unicode_len();
    if n == 0 {
        return Err(IntErrorKind::Empty);
    }
    let first = s.get_char(0);
    if (first == '+' || first == '-') && n == 1 {
        return Err(IntErrorKind::InvalidDigit);
    }
    if first == '+' {
        proof {
            assert(s@.skip(1) =~= s@.drop_first());
        }
        scan(s, 1, max)
    } else {
        proof {
            assert(s@.skip(0) =~= s@);
        }
        scan(s, 0, max)
    }
}

/// Reads a `u32`, as `str::parse::<u32>` does.
pub fn parse_u32(s: &str) -> (r: Result<u32, IntErrorKind>)
    ensures
        match parse_unsigned(s@, u32::MAX as int) {
            Ok(v) => r == Ok::<u32, IntErrorKind>(v as u32),
            Err(e) => r == Err::<u32, IntErrorKind>(e),
        },
{
    proof {
        lemma_scan_bounds(s@, 0, u32::MAX as int);
        lemma_scan_bounds(s@.drop_first(), 0, u32::MAX as int);
    }
    match parse_unsigned_max(s, u32::MAX as u64) {
        Ok(v) => Ok(v as u32),
        Err(e) => Err(e),
    }
}

/// Reads a `u64`, as `str::parse::<u64>` does.
pub fn parse_u64(s: &str) -> (r: Result<u64, IntErrorKind>)
    ensures
        match parse_unsigned(s@, u64::MAX as int) {
            Ok(v) => r == Ok::<u64, IntErrorKind>(v as u64),
            Err(e) => r == Err::<u64, IntErrorKind>(e),
        },
        r matches Ok(x) ==> parse_unsigned(s@, u64::MAX as int) == Ok::<int, IntErrorKind>(x as int),
{
    proof {
        lemma_scan_bounds(s@, 0, u64::MAX as int);
        lemma_scan_bounds(s@.drop_first(), 0, u64::MAX as int);
    }
    parse_unsigned_max(s, u64::MAX)
}

/// Reads an `i32`, as `str::parse::<i32>` does.
pub fn parse_i32(s: &str) -> (r: Result<i32, IntErrorKind>)
    ensures
        match parse_signed(s@, i32::MAX as int) {
            Ok(v) => r == Ok::<i32, IntErrorKind>(v as i32),
            Err(e) => r == Err::<i32, IntErrorKind>(e),
        },
        r matches Ok(x) ==> parse_signed(s@, i32::MAX as int) == Ok::<int, IntErrorKind>(x as int),
{
    proof {
        lemma_scan_bounds(s@.drop_first(), 0, i32::MAX as int);
        lemma_scan_bounds(s@.drop_first(), 0, i32::MAX as int + 1);
        lemma_scan_bounds(s@, 0, i32::MAX as int);
    }
    let n = s.unicode_len();
    if n == 0 {
        return Err(IntErrorKind::Empty);
    }
    let first = s.get_char(0);
    if (first == '+' || first == '-') && n == 1 {
        return Err(IntErrorKind::InvalidDigit);
    }
    proof {
        assert(s@.skip(1) =~= s@.drop_first());
        assert(s@.skip(0) =~= s@);
    }
    if first == '-' {
        match scan(s, 1, 2147483648) {
            Ok(v) => Ok((0i64 - (v as i64)) as i32),
            Err(IntErrorKind::PosOverflow) => Err(IntErrorKind::NegOverflow),
            Err(e) => Err(e),
        }
    } else if first == '+' {
        match scan(s, 1, 2147483647) {
            Ok(v) => Ok(v as i32),
            Err(e) => Err(e),
        }
    } else {
        match scan(s, 0, 2147483647) {
            Ok(v) => Ok(v as i32),
            Err(e) => Err(e),
        }
    }
}

} // verus!
