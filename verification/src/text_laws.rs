//! What holds of trimming, searching, decimals, zero literals and keys, told of the characters
//! themselves.

use vstd::prelude::*;

use crate::decimal_zero::decimal_zero;
use crate::decimal_zero::digits;
use crate::decimal_zero::exponent_split;
use crate::decimal_zero::optional_exponent;
use crate::decimal_zero::optional_sign;
use crate::decimal_zero::zero_mantissa;
use crate::decimal_zero::zero_split;
use crate::ordered_map::has_key;
use crate::ordered_map::lemma_lookup_at;
use crate::ordered_map::lookup;
use crate::ordered_map::precedes;
use crate::ordered_map::sorted;
use crate::ordered_map::splits_at;
use crate::strings::ascii_digit;
use crate::strings::blank;
use crate::strings::decimal;
use crate::strings::digit;
use crate::strings::lemma_decimal_digits;
use crate::strings::lowercase;
use crate::strings::lowered;
use crate::strings::occurs_at;
use crate::strings::occurs_in;
use crate::strings::trimmed;
use crate::strings::trimmed_end;
use crate::strings::trimmed_start;
use crate::strings::whitespace;

verus! {

proof fn lemma_start_taken_off(s: Seq<char>) -> (taken: Seq<char>)
    ensures
        s == taken + trimmed_start(s),
        forall|i: int| 0 <= i < taken.len() ==> whitespace(#[trigger] taken[i]),
        trimmed_start(s).len() > 0 ==> !whitespace(trimmed_start(s)[0]),
    decreases s.len(),
{
    if s.len() > 0 && whitespace(s.first()) {
        let rest = lemma_start_taken_off(s.drop_first());
        let taken = seq![s[0]] + rest;
        assert forall|i: int| 0 <= i < taken.len() implies whitespace(#[trigger] taken[i]) by {
            if i > 0 {
                assert(taken[i] == rest[i - 1]);
            }
        }
        assert(s =~= seq![s[0]] + s.drop_first());
        assert(s =~= taken + trimmed_start(s));
        taken
    } else {
        assert(s =~= Seq::<char>::empty() + trimmed_start(s));
        Seq::empty()
    }
}

proof fn lemma_end_taken_off(s: Seq<char>) -> (taken: Seq<char>)
    ensures
        s == trimmed_end(s) + taken,
        forall|i: int| 0 <= i < taken.len() ==> whitespace(#[trigger] taken[i]),
        trimmed_end(s).len() > 0 ==> !whitespace(trimmed_end(s)[trimmed_end(s).len() - 1]),
    decreases s.len(),
{
    if s.len() > 0 && whitespace(s.last()) {
        let rest = lemma_end_taken_off(s.drop_last());
        let taken = rest.push(s.last());
        assert(s =~= s.drop_last().push(s.last()));
        assert(s =~= trimmed_end(s) + taken);
        taken
    } else {
        assert(s =~= trimmed_end(s) + Seq::<char>::empty());
        Seq::empty()
    }
}

/// Trimming takes whitespace off both ends, and nothing else: what is left neither begins nor
/// ends with any.
pub proof fn trimming_takes_off_the_whitespace_around(s: Seq<char>) -> (around: (
    Seq<char>,
    Seq<char>,
))
    ensures
        s == around.0 + trimmed(s) + around.1,
        forall|i: int| 0 <= i < around.0.len() ==> whitespace(#[trigger] around.0[i]),
        forall|i: int| 0 <= i < around.1.len() ==> whitespace(#[trigger] around.1[i]),
        trimmed(s).len() > 0 ==> !whitespace(trimmed(s)[0]) && !whitespace(
            trimmed(s)[trimmed(s).len() - 1],
        ),
{
    let before = lemma_start_taken_off(s);
    let after = lemma_end_taken_off(trimmed_start(s));
    if trimmed(s).len() > 0 {
        assert(trimmed_start(s)[0] == trimmed(s)[0]);
    }
    assert(s =~= before + trimmed(s) + after);
    (before, after)
}

/// A text is blank unless it holds a character that is not whitespace.
pub proof fn blank_texts_hold_only_whitespace(s: Seq<char>)
    ensures
        !blank(s) <==> exists|k: int| 0 <= k < s.len() && !whitespace(#[trigger] s[k]),
{
}

/// A text occurs in every text that it is a part of, wherever it stands there.
pub proof fn parts_occur(before: Seq<char>, part: Seq<char>, after: Seq<char>)
    ensures
        occurs_in(before + part + after, part),
{
    let text = before + part + after;
    let at = before.len() as int;
    assert(text.subrange(at, at + part.len()) =~= part);
    assert(occurs_at(text, part, at));
}

/// A text that occurs in another is a part of it.
pub proof fn what_occurs_is_a_part(text: Seq<char>, part: Seq<char>) -> (around: (
    Seq<char>,
    Seq<char>,
))
    requires
        occurs_in(text, part),
    ensures
        text == around.0 + part + around.1,
{
    let i = choose|i: int| #[trigger] occurs_at(text, part, i);
    let before = text.subrange(0, i);
    let after = text.subrange(i + part.len(), text.len() as int);
    assert(text =~= before + text.subrange(i, i + part.len()) + after);
    (before, after)
}

/// A text is lowercased whatever it holds, and nothing comes of nothing.
pub proof fn every_text_is_lowercased(s: Seq<char>)
    ensures
        s.len() > 0 ==> lowered(s) == lowercase(s),
        s.len() == 0 ==> lowered(s).len() == 0,
{
}

/// The number that digits stand for.
pub open spec fn number_read(s: Seq<char>) -> int
    decreases s.len(),
{
    if s.len() == 0 {
        0
    } else {
        10 * number_read(s.drop_last()) + (s.last() as int - '0' as int)
    }
}

/// A decimal is made of digits, stands for its number, and has no leading zero but where it is
/// a single digit.
pub proof fn decimals_read_back(n: nat)
    ensures
        number_read(decimal(n)) == n,
        decimal(n).len() > 0,
        forall|i: int| 0 <= i < decimal(n).len() ==> '0' <= #[trigger] decimal(n)[i] <= '9',
        decimal(n).len() > 1 ==> decimal(n)[0] != '0',
    decreases n,
{
    lemma_decimal_digits(n);
    assert forall|i: int| 0 <= i < decimal(n).len() implies '0' <= #[trigger] decimal(n)[i]
        <= '9' by {
        assert(ascii_digit(decimal(n)[i]));
    }
    if n < 10 {
        assert(decimal(n) =~= seq![digit(n)]);
        assert(decimal(n).drop_last() =~= Seq::<char>::empty());
        assert(number_read(decimal(n).drop_last()) == 0);
    } else {
        decimals_read_back(n / 10);
        assert(decimal(n).drop_last() =~= decimal(n / 10));
        assert(decimal(n)[0] == decimal(n / 10)[0]);
        if n < 100 {
            assert(decimal(n / 10) =~= seq![digit(n / 10)]);
        } else {
            decimals_read_back(n / 10 / 10);
        }
    }
}

/// A literal of an optional sign, zeros with at most one point among them, and an optional
/// exponent is zero.
pub proof fn zero_literals_are_zero(
    sign: Seq<char>,
    whole: Seq<char>,
    point: Seq<char>,
    fraction: Seq<char>,
    exponent: Seq<char>,
    exponent_sign: Seq<char>,
    power: Seq<char>,
)
    requires
        sign.len() == 0 || sign == seq!['+'] || sign == seq!['-'],
        forall|i: int| 0 <= i < whole.len() ==> #[trigger] whole[i] == '0',
        point.len() == 0 || point == seq!['.'],
        forall|i: int| 0 <= i < fraction.len() ==> #[trigger] fraction[i] == '0',
        whole.len() + fraction.len() > 0,
        exponent == seq!['e'] || exponent == seq!['E'],
        exponent_sign.len() == 0 || exponent_sign == seq!['+'] || exponent_sign == seq!['-'],
        power.len() > 0,
        forall|i: int| 0 <= i < power.len() ==> '0' <= #[trigger] power[i] <= '9',
    ensures
        decimal_zero(sign + whole + point + fraction),
        decimal_zero(sign + whole + point + fraction + exponent + exponent_sign + power),
{
    let plain = sign + whole + point + fraction;
    let tail = exponent + exponent_sign + power;
    let full = plain + exponent + exponent_sign + power;
    let mantissa = whole + point + fraction;
    let i = sign.len() as int;
    let j = plain.len() as int;
    assert(zero_mantissa(mantissa)) by {
        if whole.len() > 0 {
            assert(mantissa[0] == whole[0]);
        } else {
            assert(mantissa[point.len() as int] == fraction[0]);
        }
        assert forall|x: int| 0 <= x < mantissa.len() implies #[trigger] mantissa[x] == '0'
            || mantissa[x] == '.' by {
            if x < whole.len() {
                assert(mantissa[x] == whole[x]);
            } else if x >= whole.len() + point.len() {
                assert(mantissa[x] == fraction[x - whole.len() - point.len()]);
            }
        }
        assert forall|x: int, y: int| 0 <= x < y < mantissa.len() implies !(
        #[trigger] mantissa[x] == '.' && #[trigger] mantissa[y] == '.') by {
            if x < whole.len() {
                assert(mantissa[x] == whole[x]);
            } else {
                assert(mantissa[y] == fraction[y - whole.len() - point.len()]);
            }
        }
    }
    assert(plain.subrange(0, i) =~= sign);
    assert(plain.subrange(i, j) =~= mantissa);
    assert(plain.subrange(j, j) =~= Seq::<char>::empty());
    assert(zero_split(plain, i, j));
    let k = 1 + exponent_sign.len() as int;
    assert(tail.subrange(1, k) =~= exponent_sign);
    assert(tail.subrange(k, tail.len() as int) =~= power);
    assert(digits(power)) by {
        assert forall|x: int| 0 <= x < power.len() implies ascii_digit(#[trigger] power[x]) by {
            assert('0' <= power[x] <= '9');
        }
    }
    assert(exponent_split(tail, k));
    assert(optional_exponent(tail));
    assert(full.subrange(0, i) =~= sign);
    assert(full.subrange(i, j) =~= mantissa);
    assert(full.subrange(j, full.len() as int) =~= tail);
    assert(zero_split(full, i, j));
}

/// A literal that is zero has an optional sign; then at least one zero, at most one point and
/// nothing else; then nothing, or an `e` in either case, an optional sign and digits.
pub proof fn zeros_are_written_as_zero_literals(s: Seq<char>) -> (parts: (
    Seq<char>,
    Seq<char>,
    Seq<char>,
    Seq<char>,
))
    requires
        decimal_zero(s),
    ensures
        parts.0.len() == 0 || parts.0 == seq!['+'] || parts.0 == seq!['-'],
        parts.1.contains('0'),
        forall|i: int| 0 <= i < parts.1.len() ==> #[trigger] parts.1[i] == '0' || parts.1[i] == '.',
        forall|i: int, j: int|
            0 <= i < parts.1.len() && 0 <= j < parts.1.len() && #[trigger] parts.1[i] == '.'
                && #[trigger] parts.1[j] == '.' ==> i == j,
        parts.2.len() == 0 <==> parts.3.len() == 0,
        parts.2.len() > 0 ==> parts.2 == seq!['e'] || parts.2 == seq!['E'] || parts.2 == seq![
            'e',
            '+',
        ] || parts.2 == seq!['e', '-'] || parts.2 == seq!['E', '+'] || parts.2 == seq!['E', '-'],
        forall|i: int| 0 <= i < parts.3.len() ==> '0' <= #[trigger] parts.3[i] <= '9',
        s == parts.0 + parts.1 + parts.2 + parts.3,
{
    let (i, j) = choose|i: int, j: int| #[trigger] zero_split(s, i, j);
    let n = s.len() as int;
    let sign = s.subrange(0, i);
    let mantissa = s.subrange(i, j);
    let tail = s.subrange(j, n);
    assert(optional_sign(sign));
    if sign.len() > 0 {
        assert(sign =~= seq![sign[0]]);
    }
    let z = choose|z: int| 0 <= z < mantissa.len() && #[trigger] mantissa[z] == '0';
    assert(mantissa.contains('0'));
    if tail.len() == 0 {
        let nothing = Seq::<char>::empty();
        assert(s =~= sign + mantissa + nothing + nothing);
        (sign, mantissa, nothing, nothing)
    } else {
        let k = choose|k: int| #[trigger] exponent_split(tail, k);
        let head = tail.subrange(0, k);
        let power = tail.subrange(k, tail.len() as int);
        let inner = tail.subrange(1, k);
        assert(optional_sign(inner));
        assert(digits(power));
        assert forall|x: int| 0 <= x < power.len() implies '0' <= #[trigger] power[x] <= '9' by {
            assert(ascii_digit(power[x]));
        }
        if inner.len() == 0 {
            assert(head =~= seq![tail[0]]);
        } else {
            assert(inner[0] == head[1]);
            assert(head =~= seq![tail[0], inner[0]]);
        }
        assert(s =~= sign + mantissa + head + power);
        (sign, mantissa, head, power)
    }
}

/// A string precedes every longer one that begins with it.
pub proof fn beginnings_precede(a: Seq<char>, more: Seq<char>)
    requires
        more.len() > 0,
    ensures
        precedes(a, a + more),
{
    assert(splits_at(a, a + more, a.len() as int));
}

/// Of two strings the one with the smaller character at the first difference precedes.
pub proof fn first_difference_decides(
    common: Seq<char>,
    smaller: char,
    greater: char,
    a: Seq<char>,
    b: Seq<char>,
)
    requires
        smaller < greater,
    ensures
        precedes(common.push(smaller) + a, common.push(greater) + b),
{
    assert(splits_at(
        common.push(smaller) + a,
        common.push(greater) + b,
        common.len() as int,
    ));
}

/// Keys stand in increasing order, each once.
pub proof fn keys_increase<T>(entries: Seq<(Seq<char>, T)>)
    ensures
        sorted(entries) <==> forall|i: int, j: int|
            0 <= i < j < entries.len() ==> precedes(
                (#[trigger] entries[i]).0,
                (#[trigger] entries[j]).0,
            ),
{
    if forall|i: int, j: int|
        0 <= i < j < entries.len() ==> precedes(
            (#[trigger] entries[i]).0,
            (#[trigger] entries[j]).0,
        ) {
        assert forall|i: int, j: int| 0 <= i < j < entries.len() implies precedes(
            #[trigger] entries[i].0,
            #[trigger] entries[j].0,
        ) by {
            let a = entries[i];
            let b = entries[j];
        }
    }
}

/// Looking a key up gives the value that it stands with, and nothing where it stands nowhere.
pub proof fn lookup_gives_what_stands_there<T>(
    entries: Seq<(Seq<char>, T)>,
    key: Seq<char>,
    value: T,
)
    requires
        sorted(entries),
    ensures
        lookup(entries, key) == Some(value) <==> exists|i: int|
            0 <= i < entries.len() && #[trigger] entries[i] == (key, value),
        lookup(entries, key) is None <==> forall|i: int|
            0 <= i < entries.len() ==> (#[trigger] entries[i]).0 != key,
        has_key(entries, key) <==> exists|i: int|
            0 <= i < entries.len() && (#[trigger] entries[i]).0 == key,
{
    if has_key(entries, key) {
        let i = choose|i: int| 0 <= i < entries.len() && #[trigger] entries[i].0 == key;
        lemma_lookup_at(entries, i);
        assert(entries[i].0 == key);
        if lookup(entries, key) == Some(value) {
            assert(entries[i] == (key, value));
        }
    }
    if exists|i: int| 0 <= i < entries.len() && #[trigger] entries[i] == (key, value) {
        let i = choose|i: int| 0 <= i < entries.len() && #[trigger] entries[i] == (key, value);
        assert(entries[i].0 == key);
        lemma_lookup_at(entries, i);
    }
    if exists|i: int| 0 <= i < entries.len() && (#[trigger] entries[i]).0 == key {
        let i = choose|i: int| 0 <= i < entries.len() && (#[trigger] entries[i]).0 == key;
        assert(entries[i].0 == key);
    }
}

} // verus!
