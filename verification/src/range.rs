//! Reading a range such as `3-10` from text.

use vstd::prelude::*;
use vstd::string::StrSliceExecFns;
use crate::message::Range;

verus! {

/// Why a text is not a range.
#[derive(Debug, Clone, Copy, PartialEq, Eq, Structural)]
pub enum RangeError {
    /// The text holds no `-`.
    NoDash,
    /// The text holds more than one `-`.
    TooManyDashes,
    /// What stands left of the `-` is not a number.
    BadLeft,
    /// What stands right of the `-` is not a number.
    BadRight,
    /// The range ends before it starts.
    Inverted,
}

/// Whether `c` is white space, as Unicode defines it.
pub open spec fn is_space(c: char) -> bool {
    let u = c as u32;
    (0x09 <= u <= 0x0D) || u == 0x20 || u == 0x85 || u == 0xA0 || u == 0x1680 || (0x2000 <= u
        <= 0x200A) || u == 0x2028 || u == 0x2029 || u == 0x202F || u == 0x205F || u == 0x3000
}

/// Whether `c` is one of the digits `0` to `9`.
pub open spec fn is_digit(c: char) -> bool {
    '0' <= c <= '9'
}

/// `s` without the white space at its start.
pub open spec fn trim_start(s: Seq<char>) -> Seq<char>
    decreases s.len(),
{
    if s.len() > 0 && is_space(s[0]) {
        trim_start(s.skip(1))
    } else {
        s
    }
}

/// `s` without the white space at its end.
pub open spec fn trim_end(s: Seq<char>) -> Seq<char>
    decreases s.len(),
{
    if s.len() > 0 && is_space(s.last()) {
        trim_end(s.drop_last())
    } else {
        s
    }
}

/// `s` without the white space at its start and at its end.
pub open spec fn trim(s: Seq<char>) -> Seq<char> {
    trim_end(trim_start(s))
}

/// The number that the digits `s` spell in base ten.
pub open spec fn digits_value(s: Seq<char>) -> nat
    decreases s.len(),
{
    if s.len() == 0 {
        0
    } else {
        digits_value(s.drop_last()) * 10 + (s.last() as u32 - '0' as u32) as nat
    }
}

/// Every character of `s` is a digit.
pub open spec fn all_digits(s: Seq<char>) -> bool {
    forall|i: int| 0 <= i < s.len() ==> is_digit(#[trigger] s[i])
}

/// The number that `s` spells: digits, at least one, with at most a `+`
/// before them, whose value a `u32` can hold.
pub open spec fn spec_parse_u32(s: Seq<char>) -> Option<u32> {
    let digits = if s.len() > 0 && s[0] == '+' {
        s.skip(1)
    } else {
        s
    };
    if digits.len() > 0 && all_digits(digits) && digits_value(digits) <= u32::MAX {
        Some(digits_value(digits) as u32)
    } else {
        None
    }
}

/// How many of the characters of `s` are dashes.
pub open spec fn count_dashes(s: Seq<char>) -> nat
    decreases s.len(),
{
    if s.len() == 0 {
        0
    } else {
        count_dashes(s.drop_last()) + if s.last() == '-' {
            1nat
        } else {
            0nat
        }
    }
}

/// The index of the first dash of `s` at or after `from`, or the length of
/// `s` where there is none.
pub open spec fn first_dash(s: Seq<char>, from: int) -> int
    decreases s.len() - from,
{
    if from < 0 || from >= s.len() {
        s.len() as int
    } else if s[from] == '-' {
        from
    } else {
        first_dash(s, from + 1)
    }
}

/// The range that the text `s` spells. A range is two numbers with one dash
/// between them; white space may stand around each number. The first number
/// must not exceed the second.
pub open spec fn spec_parse_range(s: Seq<char>) -> Result<Range, RangeError> {
    let dash = first_dash(s, 0);
    if count_dashes(s) == 0 {
        Err(RangeError::NoDash)
    } else if count_dashes(s) > 1 {
        Err(RangeError::TooManyDashes)
    } else {
        match spec_parse_u32(trim(s.subrange(0, dash))) {
            None => Err(RangeError::BadLeft),
            Some(lo) => match spec_parse_u32(trim(s.subrange(dash + 1, s.len() as int))) {
                None => Err(RangeError::BadRight),
                Some(hi) => if lo <= hi {
                    Ok(Range(lo, hi))
                } else {
                    Err(RangeError::Inverted)
                },
            },
        }
    }
}

/// Whether `c` is white space.
fn is_space_char(c: char) -> (r: bool)
    ensures
        r == is_space(c),
{
    let u: u32 = c as u32;
    (0x09 <= u && u <= 0x0D) || u == 0x20 || u == 0x85 || u == 0xA0 || u == 0x1680 || (0x2000 <= u
        && u <= 0x200A) || u == 0x2028 || u == 0x2029 || u == 0x202F || u == 0x205F || u == 0x3000
}

/// The characters of `s`.
fn chars_of(s: &str) -> (chars: Vec<char>)
    ensures
        chars@ == s@,
{
    let n: usize = s.unicode_len();
    let mut chars: Vec<char> = Vec::new();
    let mut i: usize = 0;
    while i < n
        invariant
            i <= n,
            n == s@.len(),
            chars@ == s@.subrange(0, i as int),
        decreases n - i,
    {
        chars.push(s.get_char(i));
        assert(chars@ =~= s@.subrange(0, i + 1));
        i += 1;
    }
    assert(chars@ =~= s@);
    chars
}

/// The number that `chars[from..to]` spells once the white space around it
/// is taken off: see [`spec_parse_u32`].
fn parse_u32_trimmed(chars: &Vec<char>, from: usize, to: usize) -> (r: Option<u32>)
    requires
        from <= to <= chars.len(),
    ensures
        r == spec_parse_u32(trim(chars@.subrange(from as int, to as int))),
{
    let ghost whole = chars@.subrange(from as int, to as int);
    let mut start: usize = from;
    while start < to && is_space_char(chars[start])
        invariant
            from <= start <= to <= chars.len(),
            trim_start(whole) == trim_start(chars@.subrange(start as int, to as int)),
            whole == chars@.subrange(from as int, to as int),
        decreases to - start,
    {
        assert(chars@.subrange(start as int, to as int).skip(1) =~= chars@.subrange(
            start + 1,
            to as int,
        ));
        start += 1;
    }
    assert(trim_start(whole) == chars@.subrange(start as int, to as int));
    let mut end: usize = to;
    while start < end && is_space_char(chars[end - 1])
        invariant
            start <= end <= to <= chars.len(),
            trim(whole) == trim_end(chars@.subrange(start as int, end as int)),
            whole == chars@.subrange(from as int, to as int),
        decreases end - start,
    {
        assert(chars@.subrange(start as int, end as int).drop_last() =~= chars@.subrange(
            start as int,
            end - 1,
        ));
        end -= 1;
    }
    let ghost text = chars@.subrange(start as int, end as int);
    assert(trim(whole) == text);
    let mut i: usize = start;
    if i < end && chars[i] == '+' {
        i += 1;
    }
    let ghost digits = chars@.subrange(i as int, end as int);
    assert(digits =~= if text.len() > 0 && text[0] == '+' {
        text.skip(1)
    } else {
        text
    });
    if i == end {
        return None;
    }
    let first: usize = i;
    let mut value: u64 = 0;
    let mut overflow: bool = false;
    assert(chars@.subrange(first as int, i as int) =~= Seq::<char>::empty());
    while i < end
        invariant
            first <= i <= end <= chars.len(),
            first < end,
            from <= to <= chars.len(),
            whole == chars@.subrange(from as int, to as int),
            digits == chars@.subrange(first as int, end as int),
            trim(whole) == text,
            digits == if text.len() > 0 && text[0] == '+' {
                text.skip(1)
            } else {
                text
            },
            all_digits(chars@.subrange(first as int, i as int)),
            !overflow ==> value == digits_value(chars@.subrange(first as int, i as int)) && value
                <= u32::MAX,
            overflow ==> digits_value(chars@.subrange(first as int, i as int)) > u32::MAX,
        decreases end - i,
    {
        let c: char = chars[i];
        if !('0' <= c && c <= '9') {
            assert(digits[i - first] == c);
            assert(!all_digits(digits));
            return None;
        }
        let digit: u64 = (c as u32 - '0' as u32) as u64;
        let ghost before = chars@.subrange(first as int, i as int);
        let ghost after = chars@.subrange(first as int, i + 1);
        assert(after.drop_last() =~= before);
        assert(after.last() == c);
        assert forall|k: int| 0 <= k < after.len() implies is_digit(#[trigger] after[k]) by {
            if k < before.len() {
                assert(after[k] == before[k]);
            }
        }
        if !overflow {
            value = value * 10 + digit;
            if value > 0xFFFF_FFFF {
                overflow = true;
            }
        }
        i += 1;
    }
    assert(chars@.subrange(first as int, i as int) =~= digits);
    if overflow {
        None
    } else {
        Some(value as u32)
    }
}

impl Range {
    /// Reads a range from text such as `3-10`: see [`spec_parse_range`].
    pub fn parse(s: &str) -> (r: Result<Range, RangeError>)
        ensures
            r == spec_parse_range(s@),
            r matches Ok(range) ==> range.wf(),
    {
        let chars = chars_of(s);
        let n: usize = chars.len();
        let mut dash: usize = n;
        let mut dashes: usize = 0;
        let mut i: usize = 0;
        assert(chars@.subrange(0, 0) =~= Seq::<char>::empty());
        while i < n
            invariant
                i <= n,
                n == chars.len(),
                dashes <= i,
                dashes == count_dashes(chars@.subrange(0, i as int)),
                dashes == 0 ==> dash == n && first_dash(chars@, 0) == first_dash(chars@, i as int),
                dashes > 0 ==> dash < i && dash == first_dash(chars@, 0),
            decreases n - i,
        {
            assert(chars@.subrange(0, i + 1).drop_last() =~= chars@.subrange(0, i as int));
            if chars[i] == '-' {
                if dashes == 0 {
                    dash = i;
                }
                dashes += 1;
            }
            i += 1;
        }
        assert(chars@.subrange(0, n as int) =~= chars@);
        if dashes == 0 {
            return Err(RangeError::NoDash);
        }
        if dashes > 1 {
            return Err(RangeError::TooManyDashes);
        }
        let lo: u32 = match parse_u32_trimmed(&chars, 0, dash) {
            Some(lo) => lo,
            None => {
                return Err(RangeError::BadLeft);
            },
        };
        let hi: u32 = match parse_u32_trimmed(&chars, dash + 1, n) {
            Some(hi) => hi,
            None => {
                return Err(RangeError::BadRight);
            },
        };
        if lo <= hi {
            Ok(Range(lo, hi))
        } else {
            Err(RangeError::Inverted)
        }
    }
}

impl RangeError {
    /// The error in words.
    pub open spec fn spec_message(self) -> Seq<char> {
        match self {
            RangeError::NoDash => "No number after `-`"@,
            RangeError::TooManyDashes => "Too many `-`s"@,
            RangeError::BadLeft => "Couldn't parse number on left of `-`"@,
            RangeError::BadRight => "Couldn't parse number on right of `-`"@,
            RangeError::Inverted => "The range ends before it starts"@,
        }
    }

    /// The error in words.
    pub fn message(&self) -> (text: &'static str)
        ensures
            text@ == self.spec_message(),
    {
        match self {
            RangeError::NoDash => "No number after `-`",
            RangeError::TooManyDashes => "Too many `-`s",
            RangeError::BadLeft => "Couldn't parse number on left of `-`",
            RangeError::BadRight => "Couldn't parse number on right of `-`",
            RangeError::Inverted => "The range ends before it starts",
        }
    }
}

impl core::str::FromStr for Range {
    type Err = &'static str;

    /// Reads a range from text such as `3-10`: the range that
    /// [`spec_parse_range`] gives, or else the error in words.
    fn from_str(s: &str) -> (r: Result<Self, Self::Err>)
        ensures
            match spec_parse_range(s@) {
                Ok(range) => r == Ok::<Range, &'static str>(range),
                Err(e) => r matches Err(text) && text@ == e.spec_message(),
            },
    {
        match Range::parse(s) {
            Ok(range) => Ok(range),
            Err(e) => Err(e.message()),
        }
    }
}

} // verus!
