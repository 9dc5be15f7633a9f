//! Character-level helpers shared by the parsers of this crate: decimal
//! digits, decimal numbers and searching for a separator.

use vstd::prelude::*;

verus! {

/// Whether `c` is one of the ten ASCII decimal digits.
pub open spec fn is_digit(c: char) -> bool {
    '0' <= c <= '9'
}

/// The number that the decimal digit `c` stands for.
pub open spec fn digit_value(c: char) -> int {
    c as int - '0' as int
}

/// The decimal digit that stands for `n`, for `n` below ten.
pub open spec fn digit_char(n: int) -> char {
    (n + '0' as int) as char
}

/// Whether every character of `s` is a decimal digit.
pub open spec fn all_digits(s: Seq<char>) -> bool {
    forall|i: int| 0 <= i < s.len() ==> is_digit(#[trigger] s[i])
}

/// The number written by the decimal digits `s`, most significant first.
/// The empty sequence stands for zero.
pub open spec fn decimal_value(s: Seq<char>) -> int
    decreases s.len(),
{
    if s.len() == 0 {
        0
    } else {
        decimal_value(s.drop_last()) * 10 + digit_value(s.last())
    }
}

/// What a signed decimal integer text stands for: an optional `+` or `-`,
/// then at least one decimal digit and nothing else, with a value that a
/// 64-bit signed integer can hold. Any other text stands for nothing.
pub open spec fn signed_decimal(s: Seq<char>) -> Option<int> {
    if s.len() == 0 {
        None
    } else {
        let digits = if s[0] == '-' || s[0] == '+' {
            s.skip(1)
        } else {
            s
        };
        let magnitude = decimal_value(digits);
        let value = if s[0] == '-' {
            -magnitude
        } else {
            magnitude
        };
        if digits.len() == 0 || !all_digits(digits) {
            None
        } else if i64::MIN <= value <= i64::MAX {
            Some(value)
        } else {
            None
        }
    }
}

/// The position of the first `c` in `s` at or after `start`, or the length of
/// `s` where there is none.
pub open spec fn position_from(s: Seq<char>, start: int, c: char) -> int
    decreases s.len() - start,
{
    if start < 0 || start >= s.len() {
        s.len() as int
    } else if s[start] == c {
        start
    } else {
        position_from(s, start + 1, c)
    }
}

/// A prefix of decimal digits is worth no more than the whole.
pub proof fn lemma_decimal_value_prefix(s: Seq<char>, k: int)
    requires
        all_digits(s),
        0 <= k <= s.len(),
    ensures
        0 <= decimal_value(s.take(k)) <= decimal_value(s),
    decreases s.len() - k,
{
    lemma_decimal_value_nonnegative(s.take(k));
    if k == s.len() {
        assert(s.take(k) =~= s);
    } else {
        lemma_decimal_value_prefix(s, k + 1);
        assert(s.take(k + 1).drop_last() =~= s.take(k));
        assert(is_digit(s[k]));
        assert(s.take(k + 1).last() == s[k]);
    }
}

/// Decimal digits never write a negative number.
pub proof fn lemma_decimal_value_nonnegative(s: Seq<char>)
    requires
        all_digits(s),
    ensures
        0 <= decimal_value(s),
    decreases s.len(),
{
    if s.len() > 0 {
        lemma_decimal_value_nonnegative(s.drop_last());
        assert(is_digit(s[s.len() - 1]));
    }
}

/// Copies the characters of `s` into a vector, in order.
pub fn chars_of(s: &str) -> (v: Vec<char>)
    ensures
        v@ == s@,
{
    let mut v: Vec<char> = Vec::new();
    for c in it: s.chars()
        invariant
            v@ == it.seq().take(it.index() as int),
            it.seq() == s@,
    {
        v.push(c);
    }
    v
}

/// Tells whether `c` is a decimal digit.
pub fn is_digit_char(c: char) -> (r: bool)
    ensures
        r == is_digit(c),
{
    '0' <= c && c <= '9'
}

/// The value of the decimal digit `c`.
pub fn digit_of(c: char) -> (r: u8)
    requires
        is_digit(c),
    ensures
        r == digit_value(c),
        r <= 9,
{
    (c as u32 - '0' as u32) as u8
}

/// Finds the first `c` in `chars` at or after `start`.
pub fn find_from(chars: &Vec<char>, start: usize, c: char) -> (r: usize)
    requires
        start <= chars.len(),
    ensures
        r == position_from(chars@, start as int, c),
        start <= r <= chars.len(),
        forall|j: int| start <= j < r ==> chars@[j] != c,
        r < chars.len() ==> chars@[r as int] == c,
{
    let mut i: usize = start;
    while i < chars.len() && chars[i] != c
        invariant
            start <= i <= chars.len(),
            position_from(chars@, start as int, c) == position_from(chars@, i as int, c),
            forall|j: int| start <= j < i ==> chars@[j] != c,
        decreases chars.len() - i,
    {
        i = i + 1;
    }
    i
}

/// Reads `chars[start..end]` as a signed decimal integer.
#[verifier::loop_isolation(false)]
pub fn parse_signed(chars: &Vec<char>, start: usize, end: usize) -> (r: Option<i64>)
    requires
        start <= end <= chars.len(),
    ensures
        match r {
            Some(v) => signed_decimal(chars@.subrange(start as int, end as int)) == Some(v as int),
            None => signed_decimal(chars@.subrange(start as int, end as int)) is None,
        },
{
    let ghost text = chars@.subrange(start as int, end as int);
    if start == end {
        return None;
    }
    let first = chars[start];
    let negative = first == '-';
    let begin: usize = if first == '-' || first == '+' {
        start + 1
    } else {
        start
    };
    let ghost digits = chars@.subrange(begin as int, end as int);
    assert(text[0] == first);
    assert(digits == if first == '-' || first == '+' {
        text.skip(1)
    } else {
        text
    });
    if begin == end {
        return None;
    }
    let limit: i128 = 0x8000_0000_0000_0000;
    let mut acc: i128 = 0;
    let mut i: usize = begin;
    while i < end
        invariant
            begin <= i <= end <= chars.len(),
            digits == chars@.subrange(begin as int, end as int),
            all_digits(digits.take(i - begin)),
            acc == decimal_value(digits.take(i - begin)),
            0 <= acc <= limit,
            limit == 0x8000_0000_0000_0000,
        decreases end - i,
    {
        let c = chars[i];
        let ghost k = i - begin;
        assert(digits[k] == c);
        if !is_digit_char(c) {
            return None;
        }
        let d = digit_of(c);
        proof {
            assert(digits.take(k + 1).drop_last() =~= digits.take(k));
            assert(digits.take(k + 1).last() == c);
            assert forall|j: int| 0 <= j < k + 1 implies is_digit(
                #[trigger] digits.take(k + 1)[j],
            ) by {
                if j < k {
                    assert(digits.take(k)[j] == digits.take(k + 1)[j]);
                }
            }
        }
        acc = acc * 10 + d as i128;
        i = i + 1;
        if acc > limit {
            proof {
                if all_digits(digits) {
                    lemma_decimal_value_prefix(digits, k + 1);
                }
            }
            return None;
        }
    }
    proof {
        assert(digits.take(end - begin) =~= digits);
    }
    if negative {
        Some((-acc) as i64)
    } else if acc == limit {
        None
    } else {
        Some(acc as i64)
    }
}

/// Tells whether two texts read the same.
pub fn same_text(a: &str, b: &str) -> (r: bool)
    ensures
        r == (a@ == b@),
{
    let left = a.to_owned();
    let right = b.to_owned();
    left == right
}

} // verus!
