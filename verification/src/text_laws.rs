//! What the functions on texts and numbers promise.

use crate::numbers;
use crate::text;
use crate::text::{Strip, Text};
use vstd::prelude::*;

verus! {

// ---------------------------------------------------------------------------
// Order and case
// ---------------------------------------------------------------------------

/// Texts are ordered as in a dictionary: of two texts that differ, the first
/// character in which they differ decides, and a text comes after each of its
/// beginnings.
pub proof fn law_first_difference_decides(common: Text, c: char, a: Text, d: char, b: Text)
    ensures
        c != d ==> text::text_lt(common + seq![c] + a, common + seq![d] + b) == ((c as int) < (
        d as int)),
        text::text_lt(common, common + seq![c] + a),
        !text::text_lt(common + seq![c] + a, common),
        !text::text_lt(common, common),
    decreases common.len(),
{
    let x = common + seq![c] + a;
    let y = common + seq![d] + b;
    if common.len() == 0 {
        assert(x[0] == c && y[0] == d);
    } else {
        let rest = common.skip(1);
        law_first_difference_decides(rest, c, a, d, b);
        assert(x.skip(1) =~= rest + seq![c] + a);
        assert(y.skip(1) =~= rest + seq![d] + b);
        assert(x[0] == common[0] && y[0] == common[0]);
    }
}

/// Two texts are the same but for case just where they are of one length, and at
/// each position have one character, or the two cases of one ASCII letter.
pub proof fn law_case_is_ignored(a: Text, b: Text)
    ensures
        text::eq_ignore_case(a, b) <==> a.len() == b.len() && forall|i: int|
            0 <= i < a.len() ==> {
                let x = #[trigger] a[i] as int;
                let y = b[i] as int;
                ||| x == y
                ||| 'A' as int <= x <= 'Z' as int && y == x + 32
                ||| 'A' as int <= y <= 'Z' as int && x == y + 32
            },
{
    let f = |c: char| text::ascii_lower(c);
    let p = a.map_values(f);
    let q = b.map_values(f);
    if p == q {
        assert(p.len() == a.len() && q.len() == b.len());
        assert forall|i: int| 0 <= i < a.len() implies {
            let x = #[trigger] a[i] as int;
            let y = b[i] as int;
            ||| x == y
            ||| 'A' as int <= x <= 'Z' as int && y == x + 32
            ||| 'A' as int <= y <= 'Z' as int && x == y + 32
        } by {
            assert(p[i] == q[i]);
            assert(text::ascii_lower(a[i]) == text::ascii_lower(b[i]));
        }
    }
    if a.len() == b.len() && forall|i: int|
        0 <= i < a.len() ==> {
            let x = #[trigger] a[i] as int;
            let y = b[i] as int;
            ||| x == y
            ||| 'A' as int <= x <= 'Z' as int && y == x + 32
            ||| 'A' as int <= y <= 'Z' as int && x == y + 32
        } {
        assert forall|i: int| 0 <= i < a.len() implies #[trigger] p[i] == q[i] by {
            let x = a[i] as int;
            assert(text::ascii_lower(a[i]) as int == text::ascii_lower(b[i]) as int);
        }
        assert(p =~= q);
    }
}

// ---------------------------------------------------------------------------
// Trimming
// ---------------------------------------------------------------------------

/// Whether every character of `s` is one that a trim takes off: white space, or
/// the quotes that it names.
pub open spec fn is_margin(s: Text, k: Strip) -> bool {
    forall|i: int|
        0 <= i < s.len() ==> match k {
            Strip::Space => text::is_space(#[trigger] s[i]),
            Strip::Quote => s[i] == '"',
            Strip::Apostrophe => s[i] == '\'',
            Strip::AnyQuote => s[i] == '"' || s[i] == '\'',
        }
}

/// A trim takes off just what stands around a text: of a text between margins,
/// whose two ends are none, the text is left, and of a margin nothing.
pub proof fn law_trim_takes_margins_off(front: Text, s: Text, back: Text, k: Strip)
    requires
        is_margin(front, k),
        is_margin(back, k),
        s.len() > 0 ==> !is_margin(seq![s[0]], k) && !is_margin(seq![s.last()], k),
    ensures
        text::trimmed(front + s + back, k) == s,
{
    if s.len() > 0 {
        assert(seq![s[0]][0] == s[0] && seq![s.last()][0] == s.last());
        assert(!text::strips(k, s[0]) && !text::strips(k, s.last()));
    }
    if s.len() == 0 {
        let whole = front + back;
        assert(front + s + back =~= whole);
        assert forall|i: int| 0 <= i < whole.len() implies text::strips(k, #[trigger] whole[i]) by {
            if i < front.len() {
                assert(whole[i] == front[i]);
            } else {
                assert(whole[i] == back[i - front.len()]);
            }
        }
        lemma_all_stripped(whole, k);
        assert(s =~= Seq::empty());
    } else {
        lemma_front(front, s + back, k);
        assert(front + s + back =~= front + (s + back));
        lemma_back(s, back, k);
    }
}

proof fn lemma_all_stripped(s: Text, k: Strip)
    requires
        forall|i: int| 0 <= i < s.len() ==> text::strips(k, #[trigger] s[i]),
    ensures
        text::trim_front(s, k) == Seq::<char>::empty(),
        text::trimmed(s, k) == Seq::<char>::empty(),
    decreases s.len(),
{
    if s.len() > 0 {
        let r = s.skip(1);
        assert(forall|i: int| 0 <= i < r.len() ==> r[i] == s[i + 1]);
        lemma_all_stripped(r, k);
    } else {
        assert(s =~= Seq::empty());
    }
}

proof fn lemma_front(front: Text, rest: Text, k: Strip)
    requires
        is_margin(front, k),
        rest.len() > 0,
        !text::strips(k, rest[0]),
    ensures
        text::trim_front(front + rest, k) == rest,
    decreases front.len(),
{
    if front.len() == 0 {
        assert(front + rest =~= rest);
    } else {
        let f = front.skip(1);
        assert(forall|i: int| 0 <= i < f.len() ==> f[i] == front[i + 1]);
        assert(text::strips(k, front[0]));
        lemma_front(f, rest, k);
        assert((front + rest).skip(1) =~= f + rest);
    }
}

proof fn lemma_back(s: Text, back: Text, k: Strip)
    requires
        is_margin(back, k),
        s.len() > 0,
        !text::strips(k, s.last()),
    ensures
        text::trim_back(s + back, k) == s,
    decreases back.len(),
{
    if back.len() == 0 {
        assert(s + back =~= s);
    } else {
        let d = back.drop_last();
        assert(forall|i: int| 0 <= i < d.len() ==> d[i] == back[i]);
        assert(text::strips(k, back[back.len() - 1]));
        lemma_back(s, d, k);
        assert((s + back).drop_last() =~= s + d);
    }
}

/// Blanks, tabs and line breaks are white space; letters, digits and the marks
/// of ASCII are not.
pub proof fn law_white_space(c: char)
    ensures
        c == ' ' || c == '\t' || c == '\n' || c == '\r' ==> text::is_space(c),
        0x20 < (c as int) && (c as int) < 0x7f ==> !text::is_space(c),
{
    assert(' ' as int == 0x20 && '\t' as int == 9 && '\n' as int == 10 && '\r' as int == 13);
}

// ---------------------------------------------------------------------------
// Pieces
// ---------------------------------------------------------------------------

/// No piece of a text that is split holds the separator.
pub proof fn law_pieces_hold_no_separator(s: Text, sep: char, i: int)
    requires
        0 <= i < text::split(s, sep).len(),
    ensures
        !text::split(s, sep)[i].contains(sep),
    decreases s.len(),
{
    text::lemma_split_nonempty(s, sep);
    if s.len() > 0 {
        let before = text::split(s.drop_last(), sep);
        text::lemma_split_nonempty(s.drop_last(), sep);
        if i < before.len() {
            law_pieces_hold_no_separator(s.drop_last(), sep, i);
        }
        if s.last() != sep && i == before.len() - 1 {
            let piece = text::split(s, sep)[i];
            assert(piece == before.last().push(s.last()));
            if piece.contains(sep) {
                let k = choose|k: int| 0 <= k < piece.len() && piece[k] == sep;
                assert(before[i][k] == sep);
            }
        }
    }
}

/// Joining puts the separator between each two neighbours, in their order.
pub proof fn law_join_from_the_front(first: Text, parts: Seq<Text>, sep: Text)
    ensures
        text::join(seq![first] + parts, sep) == if parts.len() == 0 {
            first
        } else {
            first + sep + text::join(parts, sep)
        },
    decreases parts.len(),
{
    let all = seq![first] + parts;
    if parts.len() == 0 {
        assert(all =~= seq![first]);
    } else {
        let d = parts.drop_last();
        law_join_from_the_front(first, d, sep);
        assert(all.drop_last() =~= seq![first] + d);
        assert(all.last() == parts.last());
        if d.len() == 0 {
            assert(text::join(parts, sep) == parts[0]);
        } else {
            assert(first + sep + text::join(d, sep) + sep + parts.last() =~= first + sep + (
            text::join(d, sep) + sep + parts.last()));
        }
    }
}

/// Replacing takes the first occurrence out, puts the other text in its place,
/// and goes on after it.
pub proof fn law_replacing_goes_on(a: Text, from: Text, b: Text, to: Text)
    requires
        from.len() > 0,
        forall|i: int| 0 <= i < a.len() ==> !text::occurs_at(a + from + b, from, i),
    ensures
        text::replaced(a + from + b, from, to) == a + to + text::replaced(b, from, to),
    decreases a.len(),
{
    let s = a + from + b;
    if a.len() == 0 {
        assert(s.subrange(0, from.len() as int) =~= from);
        assert(s.skip(from.len() as int) =~= b);
        assert(a + to =~= to);
    } else {
        let r = a.skip(1);
        assert(!text::occurs_at(s, from, 0));
        assert(s.skip(1) =~= r + from + b);
        assert forall|i: int| 0 <= i < r.len() implies !text::occurs_at(r + from + b, from, i) by {
            assert(!text::occurs_at(s, from, i + 1));
            assert((r + from + b).subrange(i, i + from.len()) =~= s.subrange(
                i + 1,
                i + 1 + from.len(),
            ));
        }
        law_replacing_goes_on(r, from, b, to);
        assert(seq![s[0]] + (r + to + text::replaced(b, from, to)) =~= a + to + text::replaced(
            b,
            from,
            to,
        ));
    }
}

/// The part before a text ends where the text begins for the first time.
pub proof fn law_before_the_first_occurrence(a: Text, p: Text, b: Text)
    requires
        p.len() > 0,
        forall|i: int| 0 <= i < a.len() ==> !text::occurs_at(a + p + b, p, i),
    ensures
        text::before(a + p + b, p) == a,
    decreases a.len(),
{
    let s = a + p + b;
    if a.len() == 0 {
        assert(s.subrange(0, p.len() as int) =~= p);
        assert(a =~= Seq::empty());
    } else {
        let r = a.skip(1);
        assert(!text::occurs_at(s, p, 0));
        assert(s.skip(1) =~= r + p + b);
        assert forall|i: int| 0 <= i < r.len() implies !text::occurs_at(r + p + b, p, i) by {
            assert(!text::occurs_at(s, p, i + 1));
            assert((r + p + b).subrange(i, i + p.len()) =~= s.subrange(i + 1, i + 1 + p.len()));
        }
        law_before_the_first_occurrence(r, p, b);
        assert(seq![s[0]] + r =~= a);
    }
}

proof fn lemma_words_from(a: Text, b: Text)
    requires
        !text::words_open(a).1,
    ensures
        text::words_open(a + b).0 == text::words(a) + text::words(b),
        b.len() > 0 ==> text::words_open(a + b).1 == text::words_open(b).1,
        text::words_open(b).1 ==> text::words(b).len() > 0,
    decreases b.len(),
{
    if b.len() == 0 {
        assert(a + b =~= a);
        assert(text::words(a) + text::words(b) =~= text::words(a));
    } else {
        let d = b.drop_last();
        lemma_words_from(a, d);
        assert((a + b).drop_last() =~= a + d);
        assert((a + b).last() == b.last());
        if d.len() == 0 {
            assert(a + d =~= a);
        }
        let x = text::words(a);
        let y = text::words(d);
        if !text::is_space(b.last()) {
            if text::words_open(d).1 {
                assert((x + y).drop_last() =~= x + y.drop_last());
                assert((x + y).last() == y.last());
                assert(x + y.drop_last().push(y.last().push(b.last())) =~= (x + y.drop_last()).push(
                    y.last().push(b.last()),
                ));
            } else {
                assert((x + y).push(seq![b.last()]) =~= x + y.push(seq![b.last()]));
            }
        }
    }
}

/// White space separates words: what is before it and what is after it are
/// split on their own.
pub proof fn law_words_are_separated(a: Text, c: char, b: Text)
    requires
        text::is_space(c),
    ensures
        text::words(a + seq![c] + b) == text::words(a) + text::words(b),
{
    let ac = a + seq![c];
    assert(ac.drop_last() =~= a);
    assert(ac.last() == c);
    lemma_words_from(ac, b);
}

/// A text without white space is one word, and an empty one none.
pub proof fn law_text_without_space_is_a_word(s: Text)
    requires
        forall|i: int| 0 <= i < s.len() ==> !text::is_space(#[trigger] s[i]),
    ensures
        text::words(s) == if s.len() == 0 {
            Seq::empty()
        } else {
            seq![s]
        },
        text::words_open(s).1 == (s.len() > 0),
    decreases s.len(),
{
    if s.len() > 0 {
        let d = s.drop_last();
        assert(forall|i: int| 0 <= i < d.len() ==> d[i] == s[i]);
        law_text_without_space_is_a_word(d);
        assert(!text::is_space(s[s.len() - 1]));
        assert(d.push(s.last()) =~= s);
        if d.len() == 0 {
            assert(seq![s.last()] =~= s);
            assert(Seq::<Text>::empty().push(s) =~= seq![s]);
        } else {
            assert(seq![d].drop_last().push(s) =~= seq![s]);
        }
    }
}

// ---------------------------------------------------------------------------
// Numbers
// ---------------------------------------------------------------------------

/// The decimal notation of a number is read back as that number, and with a minus
/// sign before it as the number below zero.
pub proof fn law_decimal_is_read_back(n: nat)
    ensures
        n <= i64::MAX ==> numbers::i64_text(numbers::decimal(n)) == Some(n as i64),
        0 < n <= i64::MAX ==> numbers::i64_text(seq!['-'] + numbers::decimal(n)) == Some(
            (-(n as int)) as i64,
        ),
        n > i64::MAX ==> numbers::i64_text(numbers::decimal(n)) is None,
        n <= u64::MAX ==> numbers::u64_text(numbers::decimal(n)) == Some(n as u64),
        n <= u16::MAX ==> numbers::u16_text(numbers::decimal(n)) == Some(n as u16),
        n > u16::MAX ==> numbers::u16_text(numbers::decimal(n)) is None,
{
    let d = numbers::decimal(n);
    numbers::law_decimal_denotes(n);
    assert(text::is_digit(d[0]));
    assert('+' as int == 43 && '-' as int == 45 && '0' as int == 48);
    assert(d[0] != '+' && d[0] != '-');
    let m = seq!['-'] + d;
    assert(m[0] == '-');
    assert(m.skip(1) =~= d);
}

/// A text with a character other than a digit, after a sign, is no integer.
pub proof fn law_integers_are_digits(s: Text, i: int)
    requires
        0 <= i < s.len(),
        !('0' as int <= s[i] as int <= '9' as int),
        i > 0 || (s[i] != '+' && s[i] != '-'),
    ensures
        numbers::i64_text(s) is None,
        numbers::u64_text(s) is None,
        numbers::u16_text(s) is None,
{
    assert(!text::is_digit(s[i]));
    if i > 0 {
        assert(s.skip(1)[i - 1] == s[i]);
    }
}

/// Digits with a point and digits after them are a number, and so are they with a
/// sign before them.
pub proof fn law_fractions_are_numbers(a: Text, b: Text)
    requires
        numbers::is_digits(a),
        numbers::is_digits(b),
    ensures
        numbers::is_number_text(a + seq!['.'] + b),
        numbers::is_number_text(seq!['-'] + (a + seq!['.'] + b)),
{
    let s = a + seq!['.'] + b;
    assert('.' as int == 46 && '+' as int == 43 && '-' as int == 45);
    assert(text::is_digit(a[0]));
    assert(s[0] == a[0]);
    assert(s[a.len() as int] == '.');
    assert forall|i: int| 0 <= i < a.len() implies text::is_digit(#[trigger] s[i]) by {
        assert(s[i] == a[i]);
    }
    lemma_digits_end(s, 0, a.len() as int);
    assert forall|i: int| a.len() + 1 <= i < s.len() implies text::is_digit(#[trigger] s[i]) by {
        assert(s[i] == b[i - a.len() - 1]);
    }
    lemma_digits_end(s, a.len() as int + 1, s.len() as int);
    let m = seq!['-'] + s;
    assert(m[0] == '-');
    assert(m.skip(1) =~= s);
}

proof fn lemma_digits_end(s: Text, i: int, end: int)
    requires
        0 <= i <= end <= s.len(),
        forall|k: int| i <= k < end ==> text::is_digit(#[trigger] s[k]),
        end < s.len() ==> !text::is_digit(s[end]),
    ensures
        numbers::digits_end(s, i) == end,
    decreases end - i,
{
    if i < end {
        assert(text::is_digit(s[i]));
        lemma_digits_end(s, i + 1, end);
    }
}

/// A word is no number: a text that begins with no digit, sign or point, and
/// neither with one of the letters of the words for infinity and for what is no
/// number.
pub proof fn law_words_are_no_numbers(s: Text)
    requires
        s.len() > 0,
        !('0' as int <= s[0] as int <= '9' as int),
        s[0] != '+' && s[0] != '-' && s[0] != '.',
        s[0] != 'i' && s[0] != 'I' && s[0] != 'n' && s[0] != 'N',
    ensures
        !numbers::is_number_text(s),
{
    assert(!text::is_digit(s[0]));
    assert(numbers::digits_end(s, 0) == 0);
    reveal_strlit("inf");
    reveal_strlit("infinity");
    reveal_strlit("nan");
    let f = |c: char| text::ascii_lower(c);
    assert('I' as int == 73 && 'i' as int == 105 && 'N' as int == 78 && 'n' as int == 110);
    let c = s[0] as int;
    assert(c != 73 && c != 105 && c != 78 && c != 110) by {
        if c == 73 {
            assert(s[0] == 'I');
        }
        if c == 105 {
            assert(s[0] == 'i');
        }
        if c == 78 {
            assert(s[0] == 'N');
        }
        if c == 110 {
            assert(s[0] == 'n');
        }
    }
    assert(s.map_values(f)[0] == text::ascii_lower(s[0]));
    assert(text::ascii_lower(s[0]) as int != 105 && text::ascii_lower(s[0]) as int != 110);
    assert("inf"@.map_values(f)[0] == 'i');
    assert("infinity"@.map_values(f)[0] == 'i');
    assert("nan"@.map_values(f)[0] == 'n');
}

/// An empty text is no number.
pub proof fn law_nothing_is_no_number()
    ensures
        !numbers::is_number_text(Seq::empty()),
{
    let s = Seq::<char>::empty();
    assert(!numbers::is_digits(s));
    assert(numbers::digits_end(s, 0) == 0);
    reveal_strlit("inf");
    reveal_strlit("infinity");
    reveal_strlit("nan");
    let f = |c: char| text::ascii_lower(c);
    assert(s.map_values(f).len() == 0);
    assert("inf"@.map_values(f).len() == 3);
    assert("infinity"@.map_values(f).len() == 8);
    assert("nan"@.map_values(f).len() == 3);
}

} // verus!
