//! How text from outside is shown: without control characters, with markup escaped, and
//! within a number of UTF-16 units.

use vstd::prelude::*;

verus! {

/// A control character: one of the general category Cc.
pub open spec fn control(c: char) -> bool {
    c <= '\u{1f}' || '\u{7f}' <= c <= '\u{9f}'
}

/// Whether a character is a control character.
pub fn is_control(c: char) -> (r: bool)
    ensures
        r == control(c),
{
    c <= '\u{1f}' || ('\u{7f}' <= c && c <= '\u{9f}')
}

/// The number of UTF-16 units that a character takes.
pub open spec fn utf16_width(c: char) -> nat {
    if c <= '\u{ffff}' {
        1
    } else {
        2
    }
}

/// The number of UTF-16 units that a character takes.
pub fn len_utf16(c: char) -> (r: usize)
    ensures
        r == utf16_width(c),
{
    if c <= '\u{ffff}' {
        1
    } else {
        2
    }
}

/// The number of UTF-16 units that a text takes.
pub open spec fn units(s: Seq<char>) -> nat
    decreases s.len(),
{
    if s.len() == 0 {
        0
    } else {
        units(s.drop_last()) + utf16_width(s.last())
    }
}

/// A character that would mark text up.
pub open spec fn markup(c: char) -> bool {
    c == '\\' || c == '`' || c == '*' || c == '_' || c == '~' || c == '[' || c == ']' || c == '<'
        || c == '>' || c == '|' || c == '#' || c == '-'
}

/// Whether a character would mark text up.
pub fn is_markup(c: char) -> (r: bool)
    ensures
        r == markup(c),
{
    matches!(
        c,
        '\\' | '`' | '*' | '_' | '~' | '[' | ']' | '<' | '>' | '|' | '#' | '-'
    )
}

/// A character that is shown: a line break, or one that is no control character.
pub open spec fn shown(c: char) -> bool {
    !control(c) || c == '\n'
}

/// The characters of a text that are shown.
pub open spec fn visible(s: Seq<char>) -> Seq<char> {
    s.filter(|c: char| shown(c))
}

/// A character with a backslash before it if it is markup.
pub open spec fn escaped_char(c: char) -> Seq<char> {
    if markup(c) {
        seq!['\\', c]
    } else {
        seq![c]
    }
}

/// A text with a backslash before each markup character.
pub open spec fn escaped(s: Seq<char>) -> Seq<char>
    decreases s.len(),
{
    if s.len() == 0 {
        s
    } else {
        escaped(s.drop_last()) + escaped_char(s.last())
    }
}

/// The longest beginning of a text that takes no more than `room` units once escaped.
pub open spec fn fitting(s: Seq<char>, room: nat) -> Seq<char>
    decreases s.len(),
{
    if s.len() == 0 || units(escaped(s)) <= room {
        s
    } else {
        fitting(s.drop_last(), room)
    }
}

/// What is shown of a text within `limit` units: its visible characters, escaped; cut short
/// with an ellipsis where they leave no unit free for one; a dash in place of nothing. Where
/// the limit is zero nothing is shown.
pub open spec fn shown_text(value: Seq<char>, limit: nat) -> Seq<char> {
    if limit == 0 {
        Seq::empty()
    } else {
        let whole = visible(value);
        let kept = fitting(whole, (limit - 1) as nat);
        if whole.len() == 0 {
            seq!['\u{2014}']
        } else if kept.len() < whole.len() {
            escaped(kept).push('\u{2026}')
        } else {
            escaped(whole)
        }
    }
}

/// The units of a text are those of its parts.
pub proof fn lemma_units_add(a: Seq<char>, b: Seq<char>)
    ensures
        units(a + b) == units(a) + units(b),
    decreases b.len(),
{
    if b.len() == 0 {
        assert(a + b =~= a);
    } else {
        assert((a + b).drop_last() =~= a + b.drop_last());
        assert((a + b).last() == b.last());
        lemma_units_add(a, b.drop_last());
    }
}

pub proof fn lemma_units_push(a: Seq<char>, c: char)
    ensures
        units(a.push(c)) == units(a) + utf16_width(c),
{
    assert(a.push(c).drop_last() =~= a);
}

/// A character takes one unit or two.
pub proof fn lemma_units_bounds(s: Seq<char>)
    ensures
        s.len() <= units(s) <= 2 * s.len(),
    decreases s.len(),
{
    if s.len() > 0 {
        lemma_units_bounds(s.drop_last());
    }
}

/// The units of an escaped character.
pub open spec fn escaped_width(c: char) -> nat {
    utf16_width(c) + if markup(c) {
        1nat
    } else {
        0
    }
}

pub proof fn lemma_escaped_push(s: Seq<char>, c: char)
    ensures
        escaped(s.push(c)) == escaped(s) + escaped_char(c),
        units(escaped(s.push(c))) == units(escaped(s)) + escaped_width(c),
{
    assert(s.push(c).drop_last() =~= s);
    lemma_units_add(escaped(s), escaped_char(c));
    lemma_units_push(Seq::empty(), c);
    assert(Seq::<char>::empty().push(c) =~= seq![c]);
    if markup(c) {
        lemma_units_push(Seq::empty(), '\\');
        lemma_units_push(seq!['\\'], c);
        assert(Seq::<char>::empty().push('\\') =~= seq!['\\']);
        assert(seq!['\\'].push(c) =~= seq!['\\', c]);
    }
}

/// A longer beginning takes no fewer units.
proof fn lemma_escaped_grows(s: Seq<char>, k: int)
    requires
        0 <= k <= s.len(),
    ensures
        units(escaped(s.take(k))) <= units(escaped(s)),
    decreases s.len(),
{
    if k == s.len() {
        assert(s.take(k) =~= s);
    } else {
        assert(s.drop_last().take(k) =~= s.take(k));
        lemma_escaped_grows(s.drop_last(), k);
        lemma_escaped_push(s.drop_last(), s.last());
        assert(s.drop_last().push(s.last()) =~= s);
    }
}

/// Where `k` characters fit and one more does not, `k` is what fits.
pub proof fn lemma_fitting_at(s: Seq<char>, room: nat, k: int)
    requires
        0 <= k < s.len(),
        units(escaped(s.take(k))) <= room,
        units(escaped(s.take(k + 1))) > room,
    ensures
        fitting(s, room) == s.take(k),
    decreases s.len(),
{
    lemma_escaped_grows(s, k + 1);
    let shorter = s.drop_last();
    if s.len() == k + 1 {
        assert(shorter =~= s.take(k));
        assert(fitting(shorter, room) == shorter);
    } else {
        assert(shorter.take(k) =~= s.take(k));
        assert(shorter.take(k + 1) =~= s.take(k + 1));
        lemma_fitting_at(shorter, room, k);
    }
}

/// What fits is a beginning of the text and fits.
pub proof fn lemma_fitting_fits(s: Seq<char>, room: nat)
    ensures
        units(escaped(fitting(s, room))) <= room,
        fitting(s, room).len() <= s.len(),
        fitting(s, room) == s.take(fitting(s, room).len() as int),
    decreases s.len(),
{
    if s.len() == 0 || units(escaped(s)) <= room {
        assert(s.take(s.len() as int) =~= s);
    } else {
        let shorter = s.drop_last();
        lemma_fitting_fits(shorter, room);
        let n = fitting(s, room).len() as int;
        assert(shorter.take(n) =~= s.take(n));
    }
}

/// What is shown never takes more units than the limit.
pub proof fn shown_text_is_within_limit(value: Seq<char>, limit: nat)
    ensures
        units(shown_text(value, limit)) <= limit,
{
    if limit > 0 {
        let whole = visible(value);
        let room = (limit - 1) as nat;
        lemma_fitting_fits(whole, room);
        let kept = fitting(whole, room);
        if whole.len() == 0 {
            lemma_units_push(Seq::empty(), '\u{2014}');
            assert(Seq::<char>::empty().push('\u{2014}') =~= seq!['\u{2014}']);
        } else if kept.len() < whole.len() {
            lemma_units_push(escaped(kept), '\u{2026}');
        } else {
            assert(kept =~= whole);
        }
    }
}

pub proof fn lemma_escaped_nonempty(s: Seq<char>)
    requires
        s.len() > 0,
    ensures
        escaped(s).len() > 0,
{
}

/// Where the limit leaves room for anything, something is shown.
pub proof fn shown_text_is_not_empty(value: Seq<char>, limit: nat)
    requires
        limit > 0,
    ensures
        shown_text(value, limit).len() > 0,
{
    let whole = visible(value);
    if whole.len() > 0 {
        lemma_escaped_nonempty(whole);
    }
}

pub proof fn lemma_visible_next(s: Seq<char>, i: int)
    requires
        0 <= i < s.len(),
    ensures
        visible(s.take(i + 1)) == (if shown(s[i]) {
            visible(s.take(i)).push(s[i])
        } else {
            visible(s.take(i))
        }),
{
    reveal(Seq::filter);
    assert(s.take(i + 1).drop_last() =~= s.take(i));
}

pub proof fn lemma_visible_prefix(s: Seq<char>, i: int)
    requires
        0 <= i <= s.len(),
    ensures
        visible(s.take(i)).len() <= visible(s).len(),
        visible(s.take(i)) == visible(s).take(visible(s.take(i)).len() as int),
{
    Seq::filter_distributes_over_add(s.take(i), s.skip(i), |c: char| shown(c));
    assert(s.take(i) + s.skip(i) =~= s);
    assert(visible(s).take(visible(s.take(i)).len() as int) =~= visible(s.take(i)));
}

/// A text without the backslashes that escape: each takes the character after it as it is.
pub open spec fn unescaped(s: Seq<char>) -> Seq<char>
    decreases s.len(),
{
    if s.len() == 0 {
        s
    } else if s[0] == '\\' && s.len() > 1 {
        seq![s[1]] + unescaped(s.skip(2))
    } else {
        seq![s[0]] + unescaped(s.skip(1))
    }
}

/// A text in which every markup character is escaped.
pub open spec fn inert(s: Seq<char>) -> bool
    decreases s.len(),
{
    if s.len() == 0 {
        true
    } else if s[0] == '\\' {
        s.len() > 1 && inert(s.skip(2))
    } else {
        !markup(s[0]) && inert(s.skip(1))
    }
}

proof fn lemma_escaped_first(s: Seq<char>)
    requires
        s.len() > 0,
    ensures
        escaped(s) == escaped_char(s[0]) + escaped(s.skip(1)),
    decreases s.len(),
{
    if s.len() == 1 {
        assert(s.drop_last() =~= Seq::<char>::empty());
        assert(s.skip(1) =~= Seq::<char>::empty());
        assert(escaped(s) =~= escaped_char(s[0]) + escaped(s.skip(1)));
    } else {
        let front = s.drop_last();
        lemma_escaped_first(front);
        assert(s.skip(1).drop_last() =~= front.skip(1));
        assert(s.skip(1).last() == s.last());
        assert(escaped(s) =~= escaped_char(s[0]) + escaped(s.skip(1)));
    }
}

/// Taking the backslashes out again gives back the text that was escaped.
pub proof fn escaping_is_reversible(s: Seq<char>)
    ensures
        unescaped(escaped(s)) == s,
    decreases s.len(),
{
    if s.len() > 0 {
        let rest = s.skip(1);
        let e = escaped(s);
        lemma_escaped_first(s);
        escaping_is_reversible(rest);
        if markup(s[0]) {
            assert(e[0] == '\\' && e[1] == s[0]);
            assert(e.skip(2) =~= escaped(rest));
        } else {
            assert(e[0] == s[0]);
            assert(e.skip(1) =~= escaped(rest));
        }
        assert(seq![s[0]] + rest =~= s);
    }
}

/// Where the visible characters fit, all of them are shown and can be read back.
pub proof fn fitting_text_is_kept(value: Seq<char>, limit: nat)
    requires
        visible(value).len() > 0,
        units(escaped(visible(value))) < limit,
    ensures
        shown_text(value, limit) == escaped(visible(value)),
        unescaped(shown_text(value, limit)) == visible(value),
{
    escaping_is_reversible(visible(value));
}

proof fn lemma_escaped_inert(s: Seq<char>, tail: Seq<char>)
    requires
        inert(tail),
    ensures
        inert(escaped(s) + tail),
    decreases s.len(),
{
    if s.len() == 0 {
        assert(escaped(s) + tail =~= tail);
    } else {
        let rest = s.skip(1);
        let e = escaped(s) + tail;
        lemma_escaped_first(s);
        lemma_escaped_inert(rest, tail);
        if markup(s[0]) {
            assert(e[0] == '\\' && e[1] == s[0]);
            assert(e.skip(2) =~= escaped(rest) + tail);
        } else {
            assert(e[0] == s[0]);
            assert(e.skip(1) =~= escaped(rest) + tail);
        }
    }
}

/// Nothing that is shown marks text up.
pub proof fn shown_text_is_inert(value: Seq<char>, limit: nat)
    ensures
        inert(shown_text(value, limit)),
{
    let nothing = Seq::<char>::empty();
    let dash = seq!['\u{2014}'];
    let ellipsis = seq!['\u{2026}'];
    assert(dash.skip(1) =~= nothing);
    assert(ellipsis.skip(1) =~= nothing);
    assert(inert(nothing));
    assert(inert(dash));
    assert(inert(ellipsis));
    if limit > 0 {
        let whole = visible(value);
        let kept = fitting(whole, (limit - 1) as nat);
        lemma_escaped_inert(whole, nothing);
        assert(escaped(whole) + nothing =~= escaped(whole));
        lemma_escaped_inert(kept, ellipsis);
        assert(escaped(kept) + ellipsis =~= escaped(kept).push('\u{2026}'));
    }
}

proof fn lemma_escaped_shown(s: Seq<char>)
    requires
        forall|i: int| 0 <= i < s.len() ==> shown(#[trigger] s[i]),
    ensures
        forall|i: int| 0 <= i < escaped(s).len() ==> shown(#[trigger] escaped(s)[i]),
    decreases s.len(),
{
    if s.len() > 0 {
        let front = s.drop_last();
        assert forall|i: int| 0 <= i < front.len() implies shown(#[trigger] front[i]) by {
            assert(front[i] == s[i]);
        }
        lemma_escaped_shown(front);
        let e = escaped(s);
        assert(shown(s[s.len() - 1]));
        assert forall|i: int| 0 <= i < e.len() implies shown(#[trigger] e[i]) by {
            if i < escaped(front).len() {
                assert(e[i] == escaped(front)[i]);
            } else {
                assert(e[i] == escaped_char(s.last())[i - escaped(front).len()]);
            }
        }
    }
}

/// No control character but the line break is shown.
pub proof fn shown_text_has_no_control_characters(value: Seq<char>, limit: nat, i: int)
    requires
        0 <= i < shown_text(value, limit).len(),
    ensures
        shown(shown_text(value, limit)[i]),
{
    let whole = visible(value);
    let kept = fitting(whole, (limit - 1) as nat);
    assert forall|j: int| 0 <= j < whole.len() implies shown(#[trigger] whole[j]) by {
        value.lemma_filter_pred(|c: char| shown(c), j);
    }
    lemma_escaped_shown(whole);
    lemma_fitting_fits(whole, (limit - 1) as nat);
    assert forall|j: int| 0 <= j < kept.len() implies shown(#[trigger] kept[j]) by {
        assert(kept[j] == whole[j]);
    }
    lemma_escaped_shown(kept);
}

/// The characters that mark text up.
pub proof fn markup_is_what_discord_reads(c: char)
    ensures
        markup(c) <==> "\\`*_~[]<>|#-"@.contains(c),
{
    let all = "\\`*_~[]<>|#-"@;
    reveal_strlit("\\`*_~[]<>|#-");
    assert(all.len() == 12);
    assert(all[0] == '\\' && all[1] == '`' && all[2] == '*' && all[3] == '_');
    assert(all[4] == '~' && all[5] == '[' && all[6] == ']' && all[7] == '<');
    assert(all[8] == '>' && all[9] == '|' && all[10] == '#' && all[11] == '-');
    if all.contains(c) {
        let i = choose|i: int| 0 <= i < all.len() && all[i] == c;
        assert(0 <= i < 12);
    }
}

proof fn lemma_escaped_add(a: Seq<char>, b: Seq<char>)
    ensures
        escaped(a + b) == escaped(a) + escaped(b),
    decreases b.len(),
{
    if b.len() == 0 {
        assert(a + b =~= a);
        assert(escaped(a) + escaped(b) =~= escaped(a));
    } else {
        assert((a + b).drop_last() =~= a + b.drop_last());
        lemma_escaped_add(a, b.drop_last());
        assert(escaped(a + b) =~= escaped(a) + escaped(b));
    }
}

/// Text is shown, escaped and measured character by character. A control character other than
/// the line break is left out; one that marks text up gets a backslash; one beyond the first
/// 65536 takes two units and any other one.
pub proof fn text_is_shown_character_by_character(a: Seq<char>, b: Seq<char>, c: char)
    ensures
        visible(a + b) == visible(a) + visible(b),
        visible(seq![c]) == if control(c) && c != '\n' {
            Seq::<char>::empty()
        } else {
            seq![c]
        },
        escaped(a + b) == escaped(a) + escaped(b),
        escaped(seq![c]) == if markup(c) {
            seq!['\\', c]
        } else {
            seq![c]
        },
        units(a + b) == units(a) + units(b),
        units(seq![c]) == if c as int >= 0x10000 {
            2nat
        } else {
            1
        },
{
    Seq::filter_distributes_over_add(a, b, |c: char| shown(c));
    lemma_escaped_add(a, b);
    lemma_units_add(a, b);
    let nothing = Seq::<char>::empty();
    let one = seq![c];
    assert(one.drop_last() =~= nothing);
    assert(visible(one) =~= if control(c) && c != '\n' {
        nothing
    } else {
        one
    }) by {
        reveal(Seq::filter);
        assert(nothing.filter(|c: char| shown(c)) =~= nothing);
    }
    assert(escaped(nothing) =~= nothing);
    assert(escaped(one) =~= escaped_char(c));
    assert(units(nothing) == 0);
}

proof fn lemma_fitting_next(s: Seq<char>, room: nat)
    requires
        units(escaped(s)) > room,
    ensures
        fitting(s, room).len() < s.len(),
        units(escaped(s.take(fitting(s, room).len() as int + 1))) > room,
    decreases s.len(),
{
    assert(s.len() > 0) by {
        if s.len() == 0 {
            assert(escaped(s) =~= s);
        }
    }
    let shorter = s.drop_last();
    let n = fitting(s, room).len() as int;
    if shorter.len() == 0 || units(escaped(shorter)) <= room {
        assert(fitting(shorter, room) == shorter);
        assert(fitting(s, room) == fitting(shorter, room));
        assert(s.take(n + 1) =~= s);
    } else {
        lemma_fitting_next(shorter, room);
        assert(shorter.take(n + 1) =~= s.take(n + 1));
    }
}

/// A text that does not fit is cut as late as the limit allows, and ends with an ellipsis; one
/// more character would leave no room for that.
pub proof fn long_text_is_cut_as_late_as_possible(value: Seq<char>, limit: nat) -> (kept: int)
    requires
        limit > 0,
        units(escaped(visible(value))) >= limit,
    ensures
        0 <= kept < visible(value).len(),
        shown_text(value, limit) == escaped(visible(value).take(kept)).push('\u{2026}'),
        units(escaped(visible(value).take(kept))) < limit,
        units(escaped(visible(value).take(kept + 1))) >= limit,
{
    let whole = visible(value);
    let room = (limit - 1) as nat;
    lemma_fitting_fits(whole, room);
    lemma_fitting_next(whole, room);
    fitting(whole, room).len() as int
}

/// Where nothing of a text is visible a dash is shown, and nothing at all within no units.
pub proof fn invisible_text_is_shown_as_a_dash(value: Seq<char>, limit: nat)
    ensures
        limit == 0 ==> shown_text(value, limit).len() == 0,
        limit > 0 && visible(value).len() == 0 ==> shown_text(value, limit) == seq!['\u{2014}'],
{
}

} // verus!
