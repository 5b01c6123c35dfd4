//! Characters and strings: the whitespace class, joining, and the two
//! standard-library operations on strings that the rest of the crate relies on.

use vstd::prelude::*;
use vstd::string::StringExecFns;
use vstd::utf8::{encode_scalar, encode_utf8};

verus! {

/// `String::push` of the standard library: the string afterwards is the string
/// before with `ch` added at its end.
pub assume_specification[ String::push ](s: &mut String, ch: char)
    ensures
        final(s)@ == old(s)@.push(ch),
;

/// `==` on `str` of the standard library: two slices are equal exactly when they
/// hold the same characters in the same order.
pub assume_specification[ <str as PartialEq>::eq ](a: &str, b: &str) -> (r: bool)
    ensures
        r == (a@ == b@),
;

/// The code points that Unicode classes as `White_Space`.
pub open spec fn is_whitespace(c: char) -> bool {
    let n = c as u32;
    ||| 0x09 <= n <= 0x0D
    ||| n == 0x20
    ||| n == 0x85
    ||| n == 0xA0
    ||| n == 0x1680
    ||| 0x2000 <= n <= 0x200A
    ||| n == 0x2028
    ||| n == 0x2029
    ||| n == 0x202F
    ||| n == 0x205F
    ||| n == 0x3000
}

/// Tells whether `c` is a whitespace character.
pub fn char_is_whitespace(c: char) -> (r: bool)
    ensures
        r == is_whitespace(c),
{
    let n: u32 = c as u32;
    (0x09 <= n && n <= 0x0D) || n == 0x20 || n == 0x85 || n == 0xA0 || n == 0x1680 || (0x2000 <= n
        && n <= 0x200A) || n == 0x2028 || n == 0x2029 || n == 0x202F || n == 0x205F || n == 0x3000
}

/// The parts laid end to end with `sep` between each two neighbours.
pub open spec fn join(parts: Seq<Seq<char>>, sep: Seq<char>) -> Seq<char>
    decreases parts.len(),
{
    if parts.len() == 0 {
        Seq::empty()
    } else if parts.len() == 1 {
        parts[0]
    } else {
        join(parts.drop_last(), sep) + sep + parts.last()
    }
}

/// Joining a first part and at least one more puts the separator between
/// the first and what the others join to.
pub proof fn lemma_join_first(first: Seq<char>, rest: Seq<Seq<char>>, sep: Seq<char>)
    requires
        rest.len() > 0,
    ensures
        join(seq![first] + rest, sep) == first + sep + join(rest, sep),
    decreases rest.len(),
{
    let all = seq![first] + rest;
    assert(all.len() == rest.len() + 1);
    assert(all.last() == rest.last());
    if rest.len() == 1 {
        assert(all.drop_last() =~= seq![first]);
        assert(join(all.drop_last(), sep) == first);
        assert(join(rest, sep) == rest[0]);
    } else {
        lemma_join_first(first, rest.drop_last(), sep);
        assert(all.drop_last() =~= seq![first] + rest.drop_last());
        assert(join(all, sep) == join(all.drop_last(), sep) + sep + all.last());
        assert(join(rest, sep) == join(rest.drop_last(), sep) + sep + rest.last());
        assert((first + sep + join(rest.drop_last(), sep)) + sep + rest.last() =~= first + sep + (
        join(rest.drop_last(), sep) + sep + rest.last()));
    }
}

/// Joins string slices with a separator.
pub fn join_strs(parts: &[&str], sep: &str) -> (r: String)
    ensures
        r@ == join(parts.deep_view(), sep@),
{
    let mut out = String::new();
    let n = parts.len();
    for i in 0..n
        invariant
            n == parts@.len(),
            out@ == join(parts.deep_view().take(i as int), sep@),
    {
        let ghost before = parts.deep_view().take(i as int);
        let ghost after = parts.deep_view().take(i + 1);
        assert(after.drop_last() == before);
        assert(after.last() == parts@[i as int]@);
        if i > 0 {
            out.append(sep);
        }
        out.append(parts[i]);
    }
    assert(parts.deep_view().take(n as int) == parts.deep_view());
    out
}

/// The strings of `owned` as slices.
pub fn as_strs<'a>(owned: &'a [String]) -> (r: Vec<&'a str>)
    ensures
        r.deep_view() == owned.deep_view(),
{
    let mut strs: Vec<&'a str> = Vec::new();
    let n = owned.len();
    for i in 0..n
        invariant
            n == owned@.len(),
            strs@.len() == i,
            forall|k: int| 0 <= k < i ==> (#[trigger] strs@[k])@ == owned@[k]@,
    {
        strs.push(owned[i].as_str());
    }
    assert(strs.deep_view() =~= owned.deep_view());
    strs
}

/// A UTF-8 encoding has at least one byte for each character.
pub proof fn lemma_encoding_covers_chars(chars: Seq<char>)
    ensures
        chars.len() <= encode_utf8(chars).len(),
    decreases chars.len(),
{
    if chars.len() > 0 {
        lemma_encoding_covers_chars(chars.drop_first());
        assert(encode_scalar(chars[0] as u32).len() >= 1);
    }
}

/// The length of `s` in bytes, which is never less than its number of characters.
pub fn byte_len(s: &str) -> (n: usize)
    ensures
        n == encode_utf8(s@).len(),
        s@.len() <= n,
{
    proof {
        lemma_encoding_covers_chars(s@);
    }
    s.as_bytes().len()
}

/// Tells whether `s` begins with `prefix`.
pub fn starts_with(s: &str, prefix: &str) -> (r: bool)
    ensures
        r == prefix@.is_prefix_of(s@),
{
    let n = s.unicode_len();
    let mut idx: usize = 0;
    for ch in it: prefix.chars()
        invariant
            it.seq() == prefix@,
            idx == it.index(),
            n == s@.len(),
            idx <= n,
            prefix@.take(idx as int) == s@.take(idx as int),
    {
        if idx >= n {
            return false;
        }
        if s.get_char(idx) != ch {
            return false;
        }
        assert(prefix@.take(idx + 1) == prefix@.take(idx as int).push(ch));
        assert(s@.take(idx + 1) == s@.take(idx as int).push(s@[idx as int]));
        idx = idx + 1;
    }
    assert(prefix@.take(idx as int) == prefix@);
    true
}

/// A decimal digit.
pub open spec fn is_digit(c: char) -> bool {
    '0' as u32 <= c as u32 <= '9' as u32
}

/// Every character is a decimal digit.
pub open spec fn all_digits(digits: Seq<char>) -> bool {
    forall|k: int| 0 <= k < digits.len() ==> is_digit(#[trigger] digits[k])
}

/// The number that a sequence of decimal digits denotes; zero for none.
pub open spec fn decimal(digits: Seq<char>) -> int
    decreases digits.len(),
{
    if digits.len() == 0 {
        0
    } else {
        decimal(digits.drop_last()) * 10 + (digits.last() as u32 - '0' as u32)
    }
}

/// The number that `s` denotes as a 32-bit signed integer: an optional `+` or
/// `-`, then one or more decimal digits and nothing else, the whole within
/// the range of `i32`. `None` for anything else.
pub open spec fn parse_i32_of(s: Seq<char>) -> Option<i32> {
    let signed = s.len() > 0 && (s[0] == '+' || s[0] == '-');
    let digits = if signed {
        s.skip(1)
    } else {
        s
    };
    let magnitude = decimal(digits);
    let value = if signed && s[0] == '-' {
        -magnitude
    } else {
        magnitude
    };
    if digits.len() > 0 && all_digits(digits) && i32::MIN <= value <= i32::MAX {
        Some(value as i32)
    } else {
        None
    }
}

/// How many digits were read among the first `idx` characters, one of which
/// was a sign where `signed` holds.
pub open spec fn digits_read(idx: usize, signed: bool) -> int {
    if signed {
        idx - 1
    } else {
        idx as int
    }
}

/// Reads `s` as a 32-bit signed integer in decimal notation.
pub fn parse_i32(s: &str) -> (r: Option<i32>)
    ensures
        r == parse_i32_of(s@),
{
    let mut idx: usize = 0;
    let mut signed = false;
    let mut negative = false;
    let mut magnitude: i64 = 0;
    let mut too_large = false;
    let _bytes = byte_len(s);
    let ghost digits = if s@.len() > 0 && (s@[0] == '+' || s@[0] == '-') {
        s@.skip(1)
    } else {
        s@
    };

    for ch in it: s.chars()
        invariant
            it.seq() == s@,
            idx == it.index(),
            s@.len() <= usize::MAX,
            signed == (idx > 0 && (s@[0] == '+' || s@[0] == '-')),
            negative == (idx > 0 && s@[0] == '-'),
            digits == if s@.len() > 0 && (s@[0] == '+' || s@[0] == '-') {
                s@.skip(1)
            } else {
                s@
            },
            all_digits(digits.take(digits_read(idx, signed))),
            0 <= magnitude <= 0x8000_0000,
            !too_large ==> magnitude == decimal(digits.take(digits_read(idx, signed))),
            too_large ==> decimal(digits.take(digits_read(idx, signed))) > 0x8000_0000,
    {
        let code: u32 = ch as u32;
        if idx == 0 && (ch == '+' || ch == '-') {
            signed = true;
            negative = ch == '-';
            assert(digits.take(0) =~= Seq::<char>::empty());
        } else if 48 <= code && code <= 57 {
            let ghost k = digits_read(idx, signed);
            let ghost before = digits.take(k);
            let ghost after = digits.take(k + 1);
            assert(digits[k] == ch);
            assert(after.drop_last() == before);
            assert(after.last() == ch);
            assert(decimal(after) == decimal(before) * 10 + (code - 48));
            if !too_large {
                let next: i64 = magnitude * 10 + (code as i64 - 48);
                if next > 0x8000_0000 {
                    too_large = true;
                } else {
                    magnitude = next;
                }
            }
        } else {
            let ghost k = digits_read(idx, signed);
            assert(digits[k] == ch);
            assert(!all_digits(digits));
            return None;
        }
        idx = idx + 1;
    }

    let ghost count = digits_read(idx, signed);
    assert(digits.take(count) == digits);
    if (signed && idx == 1) || idx == 0 {
        return None;
    }
    if too_large {
        return None;
    }
    if negative {
        Some((-magnitude) as i32)
    } else if magnitude <= 0x7FFF_FFFF {
        Some(magnitude as i32)
    } else {
        None
    }
}

} // verus!
