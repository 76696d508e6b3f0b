//! Recognition of decimal literals whose value is exactly zero.

use vstd::prelude::*;

use crate::strings::ascii_digit;
use crate::strings::chars_of;

verus! {

/// An optional sign.
pub open spec fn optional_sign(s: Seq<char>) -> bool {
    s.len() == 0 || (s.len() == 1 && sign_char(s[0]))
}

/// A sign character.
pub open spec fn sign_char(c: char) -> bool {
    c == '+' || c == '-'
}

/// A character that opens an exponent.
pub open spec fn exponent_char(c: char) -> bool {
    c == 'e' || c == 'E'
}

/// At least one digit and nothing but digits.
pub open spec fn digits(s: Seq<char>) -> bool {
    s.len() > 0 && forall|i: int| 0 <= i < s.len() ==> ascii_digit(#[trigger] s[i])
}

/// At least one zero, at most one point, and nothing else.
pub open spec fn zero_mantissa(s: Seq<char>) -> bool {
    &&& exists|i: int| 0 <= i < s.len() && #[trigger] s[i] == '0'
    &&& forall|i: int| 0 <= i < s.len() ==> #[trigger] s[i] == '0' || s[i] == '.'
    &&& forall|i: int, j: int|
        0 <= i < j < s.len() ==> !(#[trigger] s[i] == '.' && #[trigger] s[j] == '.')
}

/// Nothing, or an exponent: its opening character, an optional sign up to `k`, and digits.
pub open spec fn optional_exponent(s: Seq<char>) -> bool {
    s.len() == 0 || (exponent_char(s[0]) && exists|k: int| #[trigger] exponent_split(s, k))
}

/// The exponent's digits start at `k`.
pub open spec fn exponent_split(s: Seq<char>, k: int) -> bool {
    1 <= k <= s.len() && optional_sign(s.subrange(1, k)) && digits(s.subrange(k, s.len() as int))
}

/// The literal's mantissa stands from `i` up to `j`, its sign before and its exponent after.
pub open spec fn zero_split(s: Seq<char>, i: int, j: int) -> bool {
    &&& 0 <= i <= j <= s.len()
    &&& optional_sign(s.subrange(0, i))
    &&& zero_mantissa(s.subrange(i, j))
    &&& optional_exponent(s.subrange(j, s.len() as int))
}

/// A decimal literal, in plain or exponent notation, all of whose mantissa digits are zero.
pub open spec fn decimal_zero(s: Seq<char>) -> bool {
    exists|i: int, j: int| #[trigger] zero_split(s, i, j)
}

/// The sign is there exactly if the first character is one, and the mantissa ends at the
/// first exponent character.
proof fn lemma_zero_split_unique(s: Seq<char>, start: int, end: int)
    requires
        start == (if s.len() > 0 && sign_char(s[0]) {
            1int
        } else {
            0
        }),
        start <= end <= s.len(),
        forall|i: int| start <= i < end ==> !exponent_char(#[trigger] s[i]),
        end < s.len() ==> exponent_char(s[end]),
    ensures
        decimal_zero(s) <==> zero_split(s, start, end),
{
    if decimal_zero(s) {
        let (i, j) = choose|i: int, j: int| #[trigger] zero_split(s, i, j);
        let m = s.subrange(i, j);
        assert(forall|x: int| 0 <= x < m.len() ==> #[trigger] m[x] == s[i + x]);
        assert(m.len() > 0);
        assert(s.subrange(0, i).len() == i);
        if i == 1 {
            assert(s.subrange(0, i)[0] == s[0]);
        } else {
            assert(m[0] == s[0]);
        }
        assert(i == start);
        if j < s.len() {
            assert(s.subrange(j, s.len() as int)[0] == s[j]);
        }
        if j < end {
            assert(!exponent_char(s[j]));
            assert(false);
        }
        if end < j {
            assert(m[end - i] == s[end]);
            assert(false);
        }
    }
}

/// The exponent's sign is there exactly if a sign follows its opening character.
proof fn lemma_exponent_split_unique(s: Seq<char>, k: int)
    requires
        s.len() > 0,
        k == (if s.len() > 1 && sign_char(s[1]) {
            2int
        } else {
            1
        }),
    ensures
        (exists|x: int| #[trigger] exponent_split(s, x)) <==> exponent_split(s, k),
{
    if exists|x: int| #[trigger] exponent_split(s, x) {
        let x = choose|x: int| #[trigger] exponent_split(s, x);
        let d = s.subrange(x, s.len() as int);
        assert(s.subrange(1, x).len() == x - 1);
        assert(d.len() > 0);
        assert(d[0] == s[x]);
        if x == 2 {
            assert(s.subrange(1, x)[0] == s[1]);
        }
        assert(x == k);
    }
}

/// Whether the characters from `start` up to `end` are zeros with at most one point.
fn is_zero_mantissa(chars: &Vec<char>, start: usize, end: usize) -> (r: bool)
    requires
        start <= end <= chars@.len(),
    ensures
        r == zero_mantissa(chars@.subrange(start as int, end as int)),
{
    let ghost m = chars@.subrange(start as int, end as int);
    let mut seen_dot = false;
    let ghost mut dot_at: int = -1;
    let mut seen_zero = false;
    let mut i: usize = start;
    while i < end
        invariant
            start <= i <= end <= chars@.len(),
            m == chars@.subrange(start as int, end as int),
            forall|x: int| 0 <= x < i - start ==> #[trigger] m[x] == '0' || m[x] == '.',
            seen_zero <==> exists|x: int| 0 <= x < i - start && #[trigger] m[x] == '0',
            seen_dot ==> 0 <= dot_at < i - start && m[dot_at] == '.',
            forall|x: int| 0 <= x < i - start && #[trigger] m[x] == '.' ==> seen_dot && x == dot_at,
        decreases end - i,
    {
        let c = chars[i];
        let ghost at = i - start;
        assert(m[at] == c);
        if c == '.' && !seen_dot {
            seen_dot = true;
            proof {
                dot_at = at;
            }
        } else if c == '0' {
            seen_zero = true;
        } else {
            proof {
                if zero_mantissa(m) {
                    assert(m[at] == '.');
                    assert(m[dot_at] == '.');
                }
            }
            return false;
        }
        i = i + 1;
    }
    seen_zero
}

/// Whether the characters from `start` on are digits, at least one.
fn are_digits(chars: &Vec<char>, start: usize) -> (r: bool)
    requires
        start <= chars@.len(),
    ensures
        r == digits(chars@.subrange(start as int, chars@.len() as int)),
{
    let ghost d = chars@.subrange(start as int, chars@.len() as int);
    if start == chars.len() {
        return false;
    }
    let mut i: usize = start;
    while i < chars.len()
        invariant
            start <= i <= chars@.len(),
            d == chars@.subrange(start as int, chars@.len() as int),
            forall|x: int| 0 <= x < i - start ==> ascii_digit(#[trigger] d[x]),
        decreases chars@.len() - i,
    {
        let c = chars[i];
        assert(d[i - start] == c);
        if !('0' <= c && c <= '9') {
            return false;
        }
        i = i + 1;
    }
    true
}

/// Whether a price is the decimal zero, in whatever notation.
pub fn is_decimal_zero(raw: &str) -> (r: bool)
    ensures
        r == decimal_zero(raw@),
{
    let chars = chars_of(raw);
    let n: usize = chars.len();
    let start: usize = if n > 0 && (chars[0] == '+' || chars[0] == '-') {
        1
    } else {
        0
    };
    let mut end: usize = start;
    while end < n && chars[end] != 'e' && chars[end] != 'E'
        invariant
            n == chars@.len(),
            start <= end <= n,
            forall|i: int| start <= i < end ==> !exponent_char(#[trigger] chars@[i]),
        decreases n - end,
    {
        end = end + 1;
    }
    let ghost rest = raw@.subrange(end as int, n as int);
    proof {
        lemma_zero_split_unique(raw@, start as int, end as int);
        assert(optional_sign(raw@.subrange(0, start as int)));
    }
    if end < n {
        let first: usize = if end + 1 < n && (chars[end + 1] == '+' || chars[end + 1] == '-') {
            end + 2
        } else {
            end + 1
        };
        proof {
            assert(rest[0] == raw@[end as int]);
            if end + 1 < n {
                assert(rest[1] == raw@[end + 1]);
            }
            lemma_exponent_split_unique(rest, first - end);
            assert(rest.subrange(first - end, rest.len() as int) =~= raw@.subrange(
                first as int,
                n as int,
            ));
            assert(optional_sign(rest.subrange(1, first - end)));
        }
        if !are_digits(&chars, first) {
            return false;
        }
        assert(exponent_split(rest, first - end));
    }
    is_zero_mantissa(&chars, start, end)
}

} // verus!
