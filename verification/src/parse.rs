//! Reading whole numbers written in decimal.
//!
//! A number is an optional sign followed by one or more of the digits
//! `0` to `9`, and nothing else: no spaces, no separators. A `+` is
//! accepted for every type, a `-` for the signed ones only. A text that
//! is not a number, or whose number the type cannot hold, has no value.

use vstd::prelude::*;

verus! {

/// Whether `c` is one of the digits `0` to `9`.
pub open spec fn is_digit(c: char) -> bool {
    48 <= c as u32 <= 57
}

/// Whether `s` holds digits only.
pub open spec fn all_digits(s: Seq<char>) -> bool {
    forall|i: int| 0 <= i < s.len() ==> is_digit(#[trigger] s[i])
}

/// The number that the digits of `s` write in base ten.
pub open spec fn digits_value(s: Seq<char>) -> nat
    decreases s.len(),
{
    if s.len() == 0 {
        0
    } else {
        digits_value(s.drop_last()) * 10 + (s.last() as u32 - 48) as nat
    }
}

/// The number that `s` writes, if it writes one. A leading `-` is read
/// as a sign only where `signed` is set.
pub open spec fn decimal(s: Seq<char>, signed: bool) -> Option<int> {
    if s.len() > 0 && (s[0] == '+' || (signed && s[0] == '-')) {
        let body = s.skip(1);
        if body.len() > 0 && all_digits(body) {
            Some(
                if s[0] == '-' {
                    -(digits_value(body) as int)
                } else {
                    digits_value(body) as int
                },
            )
        } else {
            None
        }
    } else if s.len() > 0 && all_digits(s) {
        Some(digits_value(s) as int)
    } else {
        None
    }
}

/// The number that `s` writes, if it lies between `lo` and `hi`.
pub open spec fn decimal_within(s: Seq<char>, signed: bool, lo: int, hi: int) -> Option<int> {
    match decimal(s, signed) {
        Some(v) if lo <= v <= hi => Some(v),
        _ => None,
    }
}

/// The value of unsigned digits, if there is at least one digit, nothing
/// but digits, and the value fits in 64 bits.
pub open spec fn magnitude(s: Seq<char>) -> Option<u64> {
    if s.len() > 0 && all_digits(s) && digits_value(s) <= u64::MAX {
        Some(digits_value(s) as u64)
    } else {
        None
    }
}

/// A text of digits is worth at least as much as any of its beginnings.
pub proof fn lemma_value_grows(s: Seq<char>, k: int)
    requires
        0 <= k <= s.len(),
    ensures
        digits_value(s.take(k)) <= digits_value(s),
    decreases s.len(),
{
    if k == s.len() {
        assert(s.take(k) =~= s);
    } else {
        assert(s.drop_last().take(k) =~= s.take(k));
        lemma_value_grows(s.drop_last(), k);
    }
}

/// Reads the digits of `s` from position `from` to its end.
pub fn parse_magnitude(s: &[char], from: usize) -> (out: Option<u64>)
    requires
        from <= s.len(),
    ensures
        out == magnitude(s@.skip(from as int)),
{
    let ghost body = s@.skip(from as int);
    if from == s.len() {
        return None;
    }
    let mut acc: u64 = 0;
    let mut i: usize = from;
    assert(body.take(0) =~= Seq::<char>::empty());
    while i < s.len()
        invariant
            from <= i <= s.len(),
            body == s@.skip(from as int),
            all_digits(body.take(i - from)),
            acc == digits_value(body.take(i - from)),
        decreases s.len() - i,
    {
        let code: u32 = s[i] as u32;
        let ghost seen = body.take(i - from + 1);
        assert(seen.drop_last() =~= body.take(i - from));
        assert(seen.last() == s@[i as int]);
        if code < 48 || code > 57 {
            assert(!is_digit(body[i - from]));
            return None;
        }
        let digit: u64 = (code - 48) as u64;
        if acc > (u64::MAX - digit) / 10 {
            proof {
                lemma_value_grows(body, i - from + 1);
            }
            return None;
        }
        acc = acc * 10 + digit;
        i += 1;
    }
    assert(body.take(i - from) =~= body);
    Some(acc)
}

/// Reads a number between `lo` and `hi` from `s`.
pub fn parse_within(s: &[char], signed: bool, lo: i64, hi: u64) -> (out: Option<i128>)
    ensures
        out == match decimal_within(s@, signed, lo as int, hi as int) {
            Some(v) => Some(v as i128),
            None => None,
        },
{
    if s.len() == 0 {
        return None;
    }
    let negative = signed && s[0] == '-';
    let from: usize = if negative || s[0] == '+' {
        1
    } else {
        0
    };
    assert(s@.skip(0) =~= s@);
    match parse_magnitude(s, from) {
        None => {
            proof {
                if from == 0 && all_digits(s@) && (s@[0] == '+' || (signed && s@[0] == '-')) {
                    assert(!is_digit(s@[0]));
                }
            }
            None
        },
        Some(m) => {
            let v: i128 = if negative {
                0 - (m as i128)
            } else {
                m as i128
            };
            if lo as i128 <= v && v <= hi as i128 {
                Some(v)
            } else {
                None
            }
        },
    }
}

/// A type whose values can be read from text.
pub trait FromText: Sized {
    /// The value that `s` writes, if it writes one.
    spec fn text_value(s: Seq<char>) -> Option<Self>;

    /// Reads a value from `s`.
    fn from_text(s: &[char]) -> (out: Option<Self>)
        ensures
            out == Self::text_value(s@),
    ;
}

impl FromText for i32 {
    open spec fn text_value(s: Seq<char>) -> Option<i32> {
        match decimal_within(s, true, i32::MIN as int, i32::MAX as int) {
            Some(v) => Some(v as i32),
            None => None,
        }
    }

    fn from_text(s: &[char]) -> (out: Option<i32>) {
        match parse_within(s, true, i32::MIN as i64, i32::MAX as u64) {
            Some(v) => Some(v as i32),
            None => None,
        }
    }
}

impl FromText for i64 {
    open spec fn text_value(s: Seq<char>) -> Option<i64> {
        match decimal_within(s, true, i64::MIN as int, i64::MAX as int) {
            Some(v) => Some(v as i64),
            None => None,
        }
    }

    fn from_text(s: &[char]) -> (out: Option<i64>) {
        match parse_within(s, true, i64::MIN, i64::MAX as u64) {
            Some(v) => Some(v as i64),
            None => None,
        }
    }
}

impl FromText for u32 {
    open spec fn text_value(s: Seq<char>) -> Option<u32> {
        match decimal_within(s, false, 0, u32::MAX as int) {
            Some(v) => Some(v as u32),
            None => None,
        }
    }

    fn from_text(s: &[char]) -> (out: Option<u32>) {
        match parse_within(s, false, 0, u32::MAX as u64) {
            Some(v) => Some(v as u32),
            None => None,
        }
    }
}

impl FromText for u64 {
    open spec fn text_value(s: Seq<char>) -> Option<u64> {
        match decimal_within(s, false, 0, u64::MAX as int) {
            Some(v) => Some(v as u64),
            None => None,
        }
    }

    fn from_text(s: &[char]) -> (out: Option<u64>) {
        match parse_within(s, false, 0, u64::MAX) {
            Some(v) => Some(v as u64),
            None => None,
        }
    }
}

impl FromText for usize {
    open spec fn text_value(s: Seq<char>) -> Option<usize> {
        match decimal_within(s, false, 0, usize::MAX as int) {
            Some(v) => Some(v as usize),
            None => None,
        }
    }

    fn from_text(s: &[char]) -> (out: Option<usize>) {
        match parse_within(s, false, 0, usize::MAX as u64) {
            Some(v) => Some(v as usize),
            None => None,
        }
    }
}

impl FromText for i8 {
    open spec fn text_value(s: Seq<char>) -> Option<i8> {
        match decimal_within(s, true, i8::MIN as int, i8::MAX as int) {
            Some(v) => Some(v as i8),
            None => None,
        }
    }

    fn from_text(s: &[char]) -> (out: Option<i8>) {
        match parse_within(s, true, i8::MIN as i64, i8::MAX as u64) {
            Some(v) => Some(v as i8),
            None => None,
        }
    }
}

impl FromText for i16 {
    open spec fn text_value(s: Seq<char>) -> Option<i16> {
        match decimal_within(s, true, i16::MIN as int, i16::MAX as int) {
            Some(v) => Some(v as i16),
            None => None,
        }
    }

    fn from_text(s: &[char]) -> (out: Option<i16>) {
        match parse_within(s, true, i16::MIN as i64, i16::MAX as u64) {
            Some(v) => Some(v as i16),
            None => None,
        }
    }
}

impl FromText for isize {
    open spec fn text_value(s: Seq<char>) -> Option<isize> {
        match decimal_within(s, true, isize::MIN as int, isize::MAX as int) {
            Some(v) => Some(v as isize),
            None => None,
        }
    }

    fn from_text(s: &[char]) -> (out: Option<isize>) {
        match parse_within(s, true, isize::MIN as i64, isize::MAX as u64) {
            Some(v) => Some(v as isize),
            None => None,
        }
    }
}

impl FromText for u8 {
    open spec fn text_value(s: Seq<char>) -> Option<u8> {
        match decimal_within(s, false, 0, u8::MAX as int) {
            Some(v) => Some(v as u8),
            None => None,
        }
    }

    fn from_text(s: &[char]) -> (out: Option<u8>) {
        match parse_within(s, false, 0, u8::MAX as u64) {
            Some(v) => Some(v as u8),
            None => None,
        }
    }
}

impl FromText for u16 {
    open spec fn text_value(s: Seq<char>) -> Option<u16> {
        match decimal_within(s, false, 0, u16::MAX as int) {
            Some(v) => Some(v as u16),
            None => None,
        }
    }

    fn from_text(s: &[char]) -> (out: Option<u16>) {
        match parse_within(s, false, 0, u16::MAX as u64) {
            Some(v) => Some(v as u16),
            None => None,
        }
    }
}

} // verus!
