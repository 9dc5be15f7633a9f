//! Query addresses: the dotted-decimal text of an IPv4 host address and the
//! four octets that it writes.

use vstd::prelude::*;
use vstd::string::StringExecFns;

use crate::error::LookupError;
use crate::text::{
    all_digits, chars_of, digit_char, digit_of, digit_value, is_digit, is_digit_char,
};

verus! {

/// The four octets of a query address, in the order in which they are
/// written. `mask` is the last octet of the address, no subnet mask: the
/// relaxed searches use it as a bound.
#[derive(Clone, Copy, Debug, PartialEq, Eq, Structural)]
pub struct AddressKey {
    pub net: u8,
    pub sub: u8,
    pub sub2: u8,
    pub mask: u8,
}

/// The decimal text of one octet: its digits without leading zeros.
pub open spec fn octet_text(n: u8) -> Seq<char> {
    if n < 10 {
        seq![digit_char(n as int)]
    } else if n < 100 {
        seq![digit_char(n as int / 10), digit_char(n as int % 10)]
    } else {
        seq![digit_char(n as int / 100), digit_char(n as int / 10 % 10), digit_char(n as int % 10)]
    }
}

/// The dotted-decimal text of an address: its four octets, each as
/// [`octet_text`] writes it, with a `.` between neighbours.
pub open spec fn dotted(key: AddressKey) -> Seq<char> {
    octet_text(key.net) + seq!['.'] + octet_text(key.sub) + seq!['.'] + octet_text(key.sub2)
        + seq!['.'] + octet_text(key.mask)
}

/// Whether `s` is the dotted-decimal text of some address.
pub open spec fn is_address(s: Seq<char>) -> bool {
    exists|key: AddressKey| s == #[trigger] dotted(key)
}

/// Whether `s[start..end]` is the text of the octet `n` and no digit follows
/// it.
#[verifier::opaque]
pub open spec fn octet_at(s: Seq<char>, start: int, n: u8, end: int) -> bool {
    &&& 0 <= start <= end <= s.len()
    &&& s.subrange(start, end) == octet_text(n)
    &&& end < s.len() ==> !is_digit(s[end])
}

/// The text of an octet has one to three digits, no leading zero unless it
/// is the single digit `0`, and writes the octet.
pub proof fn lemma_octet_text(n: u8)
    ensures
        1 <= octet_text(n).len() <= 3,
        all_digits(octet_text(n)),
        octet_text(n).len() == 1 ==> n == digit_value(octet_text(n)[0]),
        octet_text(n).len() == 2 ==> n == 10 * digit_value(octet_text(n)[0]) + digit_value(
            octet_text(n)[1],
        ) && digit_value(octet_text(n)[0]) != 0,
        octet_text(n).len() == 3 ==> n == 100 * digit_value(octet_text(n)[0]) + 10 * digit_value(
            octet_text(n)[1],
        ) + digit_value(octet_text(n)[2]) && digit_value(octet_text(n)[0]) != 0,
{
    let t = octet_text(n);
    assert forall|d: int| 0 <= d <= 9 implies is_digit(#[trigger] digit_char(d)) && digit_value(
        digit_char(d),
    ) == d by {}
    if n < 10 {
        assert(t[0] == digit_char(n as int));
    } else if n < 100 {
        assert(t[0] == digit_char(n as int / 10));
        assert(t[1] == digit_char(n as int % 10));
    } else {
        assert(t[0] == digit_char(n as int / 100));
        assert(t[1] == digit_char(n as int / 10 % 10));
        assert(t[2] == digit_char(n as int % 10));
    }
}

/// At one place of a text at most one octet stands.
pub proof fn lemma_octet_at_unique(s: Seq<char>, start: int, n: u8, end: int, m: u8, stop: int)
    requires
        octet_at(s, start, n, end),
        octet_at(s, start, m, stop),
    ensures
        n == m,
        end == stop,
{
    reveal(octet_at);
    lemma_octet_text(n);
    lemma_octet_text(m);
    let a = s.subrange(start, end);
    let b = s.subrange(start, stop);
    assert(a.len() == end - start);
    assert(b.len() == stop - start);
    if end < stop {
        assert(b[end - start] == s[end]);
    }
    if stop < end {
        assert(a[stop - start] == s[stop]);
    }
    assert(forall|i: int| 0 <= i < a.len() ==> a[i] == s[start + i]);
    assert(forall|i: int| 0 <= i < b.len() ==> b[i] == s[start + i]);
}

/// Reads the octet that stands at `start`, and says where its text ends.
pub fn scan_octet(chars: &Vec<char>, start: usize) -> (r: Option<(u8, usize)>)
    requires
        start <= chars.len(),
    ensures
        match r {
            Some((n, end)) => octet_at(chars@, start as int, n, end as int) && start < end,
            None => forall|n: u8, end: int| !octet_at(chars@, start as int, n, end),
        },
{
    let len = chars.len();
    let ghost s = chars@;
    proof {
        reveal(octet_at);
        assert forall|n: u8, end: int| #[trigger] octet_at(s, start as int, n, end) implies {
            let t = octet_text(n);
            &&& 1 <= t.len() <= 3
            &&& all_digits(t)
            &&& end == start + t.len()
            &&& forall|i: int| 0 <= i < t.len() ==> t[i] == s[start + i]
            &&& t.len() == 1 ==> n == digit_value(t[0])
            &&& t.len() == 2 ==> n == 10 * digit_value(t[0]) + digit_value(t[1]) && digit_value(
                t[0],
            ) != 0
            &&& t.len() == 3 ==> n == 100 * digit_value(t[0]) + 10 * digit_value(t[1])
                + digit_value(t[2]) && digit_value(t[0]) != 0
        } by {
            lemma_octet_text(n);
            let t = s.subrange(start as int, end);
            assert(t.len() == end - start);
            assert(forall|i: int| 0 <= i < t.len() ==> t[i] == s[start + i]);
        }
    }
    if start >= len || !is_digit_char(chars[start]) {
        proof {
            assert forall|n: u8, end: int| !octet_at(s, start as int, n, end) by {
                if octet_at(s, start as int, n, end) {
                    assert(is_digit(octet_text(n)[0]));
                }
            }
        }
        return None;
    }
    let d0 = digit_of(chars[start]);
    if start + 1 >= len || !is_digit_char(chars[start + 1]) {
        proof {
            assert(s.subrange(start as int, start + 1) =~= octet_text(d0));
        }
        return Some((d0, start + 1));
    }
    if d0 == 0 {
        proof {
            assert forall|n: u8, end: int| !octet_at(s, start as int, n, end) by {
                if octet_at(s, start as int, n, end) {
                    assert(is_digit(octet_text(n)[0]));
                }
            }
        }
        return None;
    }
    let d1 = digit_of(chars[start + 1]);
    let two: u8 = d0 * 10 + d1;
    if start + 2 >= len || !is_digit_char(chars[start + 2]) {
        proof {
            assert(s.subrange(start as int, start + 2) =~= octet_text(two));
        }
        return Some((two, start + 2));
    }
    let d2 = digit_of(chars[start + 2]);
    let three: u16 = two as u16 * 10 + d2 as u16;
    if three > 255 || (start + 3 < len && is_digit_char(chars[start + 3])) {
        proof {
            assert forall|n: u8, end: int| !octet_at(s, start as int, n, end) by {
                if octet_at(s, start as int, n, end) {
                    assert(is_digit(octet_text(n)[0]));
                }
            }
        }
        return None;
    }
    proof {
        assert(s.subrange(start as int, start + 3) =~= octet_text(three as u8));
    }
    Some((three as u8, start + 3))
}

/// Whether `s` holds the four octets of `key`, the first three each followed
/// by a dot, with the texts of the first three ending at `e1`, `e2` and `e3`
/// and that of the fourth at the end of `s`.
pub open spec fn reads_as(s: Seq<char>, key: AddressKey, e1: int, e2: int, e3: int) -> bool {
    &&& octet_at(s, 0, key.net, e1)
    &&& e1 < s.len() && s[e1] == '.'
    &&& octet_at(s, e1 + 1, key.sub, e2)
    &&& e2 < s.len() && s[e2] == '.'
    &&& octet_at(s, e2 + 1, key.sub2, e3)
    &&& e3 < s.len() && s[e3] == '.'
    &&& octet_at(s, e3 + 1, key.mask, s.len() as int)
}

/// Where the four octets stand in the dotted-decimal text of `key`.
pub proof fn lemma_dotted_reads(key: AddressKey)
    ensures
        ({
            let e1 = octet_text(key.net).len() as int;
            let e2 = e1 + 1 + octet_text(key.sub).len();
            let e3 = e2 + 1 + octet_text(key.sub2).len();
            reads_as(dotted(key), key, e1, e2, e3)
        }),
{
    reveal(octet_at);
    let s = dotted(key);
    let e1 = octet_text(key.net).len() as int;
    let e2 = e1 + 1 + octet_text(key.sub).len();
    let e3 = e2 + 1 + octet_text(key.sub2).len();
    lemma_octet_text(key.net);
    lemma_octet_text(key.sub);
    lemma_octet_text(key.sub2);
    lemma_octet_text(key.mask);
    assert(s.subrange(0, e1) =~= octet_text(key.net));
    assert(s.subrange(e1 + 1, e2) =~= octet_text(key.sub));
    assert(s.subrange(e2 + 1, e3) =~= octet_text(key.sub2));
    assert(s.subrange(e3 + 1, s.len() as int) =~= octet_text(key.mask));
}

/// A text that holds the four octets of `key` is its dotted-decimal text.
pub proof fn lemma_reads_dotted(s: Seq<char>, key: AddressKey, e1: int, e2: int, e3: int)
    requires
        reads_as(s, key, e1, e2, e3),
    ensures
        s == dotted(key),
{
    reveal(octet_at);
    let a = s.subrange(0, e1);
    let b = s.subrange(e1 + 1, e2);
    let c = s.subrange(e2 + 1, e3);
    let d = s.subrange(e3 + 1, s.len() as int);
    assert(s =~= a + seq!['.'] + b + seq!['.'] + c + seq!['.'] + d);
}

/// Two addresses with the same dotted-decimal text are the same address.
pub proof fn lemma_dotted_injective(a: AddressKey, b: AddressKey)
    requires
        dotted(a) == dotted(b),
    ensures
        a == b,
{
    let s = dotted(a);
    lemma_dotted_reads(a);
    lemma_dotted_reads(b);
    let a1 = octet_text(a.net).len() as int;
    let a2 = a1 + 1 + octet_text(a.sub).len();
    let a3 = a2 + 1 + octet_text(a.sub2).len();
    let b1 = octet_text(b.net).len() as int;
    let b2 = b1 + 1 + octet_text(b.sub).len();
    let b3 = b2 + 1 + octet_text(b.sub2).len();
    lemma_octet_at_unique(s, 0, a.net, a1, b.net, b1);
    lemma_octet_at_unique(s, a1 + 1, a.sub, a2, b.sub, b2);
    lemma_octet_at_unique(s, a2 + 1, a.sub2, a3, b.sub2, b3);
    lemma_octet_at_unique(s, a3 + 1, a.mask, s.len() as int, b.mask, s.len() as int);
}

/// The address that `s` writes, if it writes one.
pub open spec fn address_key(s: Seq<char>) -> Option<AddressKey> {
    if is_address(s) {
        Some(choose|key: AddressKey| s == #[trigger] dotted(key))
    } else {
        None
    }
}

/// The dotted-decimal text of an address writes that address and no other.
pub proof fn lemma_address_key_of_dotted(key: AddressKey)
    ensures
        address_key(dotted(key)) == Some(key),
{
    let s = dotted(key);
    assert(is_address(s));
    let chosen = choose|other: AddressKey| s == #[trigger] dotted(other);
    lemma_dotted_injective(chosen, key);
}

/// Reads `chars` as four octets parted by dots.
fn parse_octets(chars: &Vec<char>) -> (r: Option<(AddressKey, Ghost<(int, int, int)>)>)
    ensures
        match r {
            Some((key, ends)) => reads_as(chars@, key, ends@.0, ends@.1, ends@.2),
            None => forall|key: AddressKey, e1: int, e2: int, e3: int|
                !#[trigger] reads_as(chars@, key, e1, e2, e3),
        },
{
    let len = chars.len();
    let ghost s = chars@;
    let (net, e1) = match scan_octet(chars, 0) {
        Some(found) => found,
        None => {
            return None;
        },
    };
    proof {
        assert forall|key: AddressKey, f1: int, f2: int, f3: int| #[trigger]
            reads_as(s, key, f1, f2, f3) implies key.net == net && f1 == e1 by {
            lemma_octet_at_unique(s, 0, net, e1 as int, key.net, f1);
        }
    }
    if e1 >= len || chars[e1] != '.' {
        return None;
    }
    let (sub, e2) = match scan_octet(chars, e1 + 1) {
        Some(found) => found,
        None => {
            return None;
        },
    };
    proof {
        assert forall|key: AddressKey, f1: int, f2: int, f3: int| #[trigger]
            reads_as(s, key, f1, f2, f3) implies key.sub == sub && f2 == e2 by {
            lemma_octet_at_unique(s, e1 + 1, sub, e2 as int, key.sub, f2);
        }
    }
    if e2 >= len || chars[e2] != '.' {
        return None;
    }
    let (sub2, e3) = match scan_octet(chars, e2 + 1) {
        Some(found) => found,
        None => {
            return None;
        },
    };
    proof {
        assert forall|key: AddressKey, f1: int, f2: int, f3: int| #[trigger]
            reads_as(s, key, f1, f2, f3) implies key.sub2 == sub2 && f3 == e3 by {
            lemma_octet_at_unique(s, e2 + 1, sub2, e3 as int, key.sub2, f3);
        }
    }
    if e3 >= len || chars[e3] != '.' {
        return None;
    }
    let (mask, e4) = match scan_octet(chars, e3 + 1) {
        Some(found) => found,
        None => {
            return None;
        },
    };
    proof {
        assert forall|key: AddressKey, f1: int, f2: int, f3: int| #[trigger]
            reads_as(s, key, f1, f2, f3) implies key.mask == mask && e4 == len by {
            lemma_octet_at_unique(s, e3 + 1, mask, e4 as int, key.mask, len as int);
        }
    }
    if e4 != len {
        return None;
    }
    let key = AddressKey { net, sub, sub2, mask };
    Some((key, Ghost((e1 as int, e2 as int, e3 as int))))
}

/// Reads `chars` as the dotted-decimal text of an IPv4 host address: four
/// octets between 0 and 255, written in decimal without leading zeros and
/// parted by dots, with nothing before, between or after them.
pub fn parse_address_chars(chars: &Vec<char>) -> (r: Result<AddressKey, LookupError>)
    ensures
        match r {
            Ok(key) => chars@ == dotted(key) && address_key(chars@) == Some(key),
            Err(e) => e == LookupError::InvalidAddress && address_key(chars@) is None,
        },
{
    match parse_octets(chars) {
        Some((key, ends)) => {
            proof {
                lemma_reads_dotted(chars@, key, ends@.0, ends@.1, ends@.2);
                lemma_address_key_of_dotted(key);
            }
            Ok(key)
        },
        None => {
            proof {
                assert forall|key: AddressKey| chars@ == #[trigger] dotted(key) implies false by {
                    lemma_dotted_reads(key);
                }
            }
            Err(LookupError::InvalidAddress)
        },
    }
}

/// Reads `address` as the dotted-decimal text of an IPv4 host address: four
/// octets between 0 and 255, written in decimal without leading zeros and
/// parted by dots, with nothing before, between or after them.
pub fn parse_address(address: &str) -> (r: Result<AddressKey, LookupError>)
    ensures
        match r {
            Ok(key) => address@ == dotted(key) && address_key(address@) == Some(key),
            Err(e) => e == LookupError::InvalidAddress && address_key(address@) is None,
        },
{
    let chars = chars_of(address);
    parse_address_chars(&chars)
}

/// The one-character text of the decimal digit `d`.
fn digit_str(d: u8) -> (r: &'static str)
    requires
        d <= 9,
    ensures
        r@ == seq![digit_char(d as int)],
{
    proof {
        reveal_strlit("0");
        reveal_strlit("1");
        reveal_strlit("2");
        reveal_strlit("3");
        reveal_strlit("4");
        reveal_strlit("5");
        reveal_strlit("6");
        reveal_strlit("7");
        reveal_strlit("8");
        reveal_strlit("9");
    }
    let r = match d {
        0 => "0",
        1 => "1",
        2 => "2",
        3 => "3",
        4 => "4",
        5 => "5",
        6 => "6",
        7 => "7",
        8 => "8",
        _ => "9",
    };
    assert(r@ =~= seq![digit_char(d as int)]);
    r
}

/// Appends the decimal text of the octet `n` to `out`.
fn push_octet(out: &mut String, n: u8)
    ensures
        final(out)@ == old(out)@ + octet_text(n),
{
    if n >= 100 {
        out.append(digit_str(n / 100));
    }
    if n >= 10 {
        out.append(digit_str(n / 10 % 10));
    }
    out.append(digit_str(n % 10));
    assert(out@ =~= old(out)@ + octet_text(n));
}

impl AddressKey {
    /// The dotted-decimal text of this address.
    pub fn to_text(&self) -> (r: String)
        ensures
            r@ == dotted(*self),
    {
        proof {
            reveal_strlit(".");
        }
        let mut out = String::new();
        push_octet(&mut out, self.net);
        out.append(".");
        push_octet(&mut out, self.sub);
        out.append(".");
        push_octet(&mut out, self.sub2);
        out.append(".");
        push_octet(&mut out, self.mask);
        assert(out@ =~= dotted(*self));
        out
    }
}

} // verus!
