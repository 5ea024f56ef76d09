//! Text operations on strings, stated over the sequence of their characters.

use vstd::prelude::*;
use vstd::string::*;

verus! {

broadcast use vstd::string::group_string_axioms;

/// The characters of a string, in order.
pub type Text = Seq<char>;

// ---------------------------------------------------------------------------
// Building and comparing strings
// ---------------------------------------------------------------------------

/// The characters of a string, in order.
pub fn chars_of(s: &str) -> (r: Vec<char>)
    ensures
        r@ == s@,
{
    let mut r: Vec<char> = Vec::new();
    for c in iter: s.chars()
        invariant
            iter.seq() == s@,
            r@ == s@.take(iter.index() as int),
    {
        proof {
            assert(s@.take(iter.index() as int + 1) =~= s@.take(iter.index() as int).push(c));
        }
        r.push(c);
    }
    assert(s@.take(s@.len() as int) =~= s@);
    r
}

/// The string made of the characters `from..to` of `cs`.
pub fn string_of(cs: &Vec<char>, from: usize, to: usize) -> (r: String)
    requires
        from <= to <= cs@.len(),
    ensures
        r@ == cs@.subrange(from as int, to as int),
{
    let mut r = String::new();
    let mut i: usize = from;
    while i < to
        invariant
            from <= i <= to <= cs@.len(),
            r@ =~= cs@.subrange(from as int, i as int),
        decreases to - i,
    {
        r.push(cs[i]);
        assert(cs@.subrange(from as int, i as int + 1) =~= cs@.subrange(from as int, i as int).push(
            cs@[i as int],
        ));
        i = i + 1;
    }
    r
}

/// Whether two strings hold the same characters.
pub fn str_eq(a: &str, b: &str) -> (r: bool)
    ensures
        r == (a@ == b@),
{
    let x = a.as_bytes();
    let y = b.as_bytes();
    if x.len() != y.len() {
        return false;
    }
    let mut i: usize = 0;
    while i < x.len()
        invariant
            i <= x@.len(),
            x@.len() == y@.len(),
            x@ == a.spec_bytes(),
            y@ == b.spec_bytes(),
            forall|k: int| 0 <= k < i ==> x@[k] == y@[k],
        decreases x@.len() - i,
    {
        if x[i] != y[i] {
            return false;
        }
        i = i + 1;
    }
    proof {
        assert(x@ =~= y@);
        vstd::utf8::encode_utf8_decode_utf8(a@);
        vstd::utf8::encode_utf8_decode_utf8(b@);
    }
    true
}

/// `a` followed by `b`.
pub fn concat2(a: &str, b: &str) -> (r: String)
    ensures
        r@ == a@ + b@,
{
    let mut r = a.to_owned();
    r.append(b);
    r
}

/// `a`, `b` and `c`, one after the other.
pub fn concat3(a: &str, b: &str, c: &str) -> (r: String)
    ensures
        r@ == a@ + b@ + c@,
{
    let mut r = a.to_owned();
    r.append(b);
    r.append(c);
    r
}

/// `a`, `b`, `c` and `d`, one after the other.
pub fn concat4(a: &str, b: &str, c: &str, d: &str) -> (r: String)
    ensures
        r@ == a@ + b@ + c@ + d@,
{
    let mut r = concat3(a, b, c);
    r.append(d);
    r
}

/// `a`, `b`, `c`, `d` and `e`, one after the other.
pub fn concat5(a: &str, b: &str, c: &str, d: &str, e: &str) -> (r: String)
    ensures
        r@ == a@ + b@ + c@ + d@ + e@,
{
    let mut r = a.to_owned();
    r.append(b);
    r.append(c);
    r.append(d);
    r.append(e);
    r
}

/// A character compares as its scalar value; the first difference decides; a
/// proper prefix comes first.
pub open spec fn text_lt(a: Text, b: Text) -> bool
    decreases a.len(),
{
    if b.len() == 0 {
        false
    } else if a.len() == 0 {
        true
    } else if a[0] != b[0] {
        (a[0] as int) < (b[0] as int)
    } else {
        text_lt(a.skip(1), b.skip(1))
    }
}

/// Whether `a` comes before `b` in the order of [`text_lt`].
pub fn str_lt(a: &str, b: &str) -> (r: bool)
    ensures
        r == text_lt(a@, b@),
{
    let x = chars_of(a);
    let y = chars_of(b);
    let mut i: usize = 0;
    assert(a@.skip(0) =~= a@);
    assert(b@.skip(0) =~= b@);
    while i < x.len() && i < y.len() && x[i] == y[i]
        invariant
            i <= x@.len(),
            i <= y@.len(),
            x@ == a@,
            y@ == b@,
            text_lt(a@, b@) == text_lt(a@.skip(i as int), b@.skip(i as int)),
        decreases x@.len() - i,
    {
        assert(a@.skip(i as int).skip(1) =~= a@.skip(i as int + 1));
        assert(b@.skip(i as int).skip(1) =~= b@.skip(i as int + 1));
        i = i + 1;
    }
    if i == y.len() {
        false
    } else if i == x.len() {
        true
    } else {
        x[i] < y[i]
    }
}

/// The order of [`text_lt`] is total: of two different texts one comes first.
pub proof fn lemma_text_lt_total(a: Text, b: Text)
    ensures
        a != b ==> text_lt(a, b) || text_lt(b, a),
        !(text_lt(a, b) && text_lt(b, a)),
        !text_lt(a, a),
    decreases a.len(),
{
    if a.len() > 0 && b.len() > 0 && a[0] == b[0] {
        lemma_text_lt_total(a.skip(1), b.skip(1));
        if a != b {
            assert(a.skip(1) != b.skip(1)) by {
                if a.skip(1) == b.skip(1) {
                    assert(a =~= seq![a[0]] + a.skip(1));
                    assert(b =~= seq![b[0]] + b.skip(1));
                }
            }
        }
    }
    if a.len() == 0 && b.len() == 0 {
        assert(a =~= b);
    }
    if a.len() > 0 {
        lemma_text_lt_irreflexive(a);
    }
}

proof fn lemma_text_lt_irreflexive(a: Text)
    ensures
        !text_lt(a, a),
    decreases a.len(),
{
    if a.len() > 0 {
        lemma_text_lt_irreflexive(a.skip(1));
    }
}

/// The order of [`text_lt`] is transitive.
pub proof fn lemma_text_lt_transitive(a: Text, b: Text, c: Text)
    requires
        text_lt(a, b),
        text_lt(b, c),
    ensures
        text_lt(a, c),
    decreases a.len(),
{
    if a.len() > 0 && a[0] == b[0] && b[0] == c[0] {
        lemma_text_lt_transitive(a.skip(1), b.skip(1), c.skip(1));
    }
}

// ---------------------------------------------------------------------------
// Character classes
// ---------------------------------------------------------------------------

/// The characters with the Unicode property `White_Space`.
pub open spec fn is_space(c: char) -> bool {
    let n = c as int;
    ||| 0x9 <= n <= 0xd
    ||| n == 0x20
    ||| n == 0x85
    ||| n == 0xa0
    ||| n == 0x1680
    ||| 0x2000 <= n <= 0x200a
    ||| n == 0x2028
    ||| n == 0x2029
    ||| n == 0x202f
    ||| n == 0x205f
    ||| n == 0x3000
}

/// Whether `c` is white space.
pub fn char_is_space(c: char) -> (r: bool)
    ensures
        r == is_space(c),
{
    let n: u32 = c as u32;
    (0x9 <= n && n <= 0xd) || n == 0x20 || n == 0x85 || n == 0xa0 || n == 0x1680 || (0x2000 <= n && n
        <= 0x200a) || n == 0x2028 || n == 0x2029 || n == 0x202f || n == 0x205f || n == 0x3000
}

/// The ten decimal digits.
pub open spec fn is_digit(c: char) -> bool {
    '0' as int <= c as int <= '9' as int
}

/// The number that a decimal digit stands for.
pub open spec fn digit_value(c: char) -> int {
    c as int - '0' as int
}

/// The lower-case form of an ASCII letter; any other character is unchanged.
pub open spec fn ascii_lower(c: char) -> char {
    if 'A' as int <= c as int <= 'Z' as int {
        (c as int + 32) as char
    } else {
        c
    }
}

/// The upper-case form of an ASCII letter; any other character is unchanged.
pub open spec fn ascii_upper(c: char) -> char {
    if 'a' as int <= c as int <= 'z' as int {
        (c as int - 32) as char
    } else {
        c
    }
}

/// Whether `c` is an ASCII character.
pub open spec fn is_ascii_char(c: char) -> bool {
    (c as int) < 128
}

/// Whether every character is an ASCII character.
pub open spec fn is_ascii_text(s: Text) -> bool {
    forall|i: int| 0 <= i < s.len() ==> is_ascii_char(#[trigger] s[i])
}

fn lower_ascii_char(c: char) -> (r: char)
    ensures
        r == ascii_lower(c),
{
    if 'A' <= c && c <= 'Z' {
        let n: u8 = c as u8;
        (n + 32) as char
    } else {
        c
    }
}

/// Equality of two texts that does not tell the two cases of an ASCII letter apart.
pub open spec fn eq_ignore_case(a: Text, b: Text) -> bool {
    a.map_values(|c: char| ascii_lower(c)) == b.map_values(|c: char| ascii_lower(c))
}

/// Whether two strings are equal but for the case of their ASCII letters.
pub fn str_eq_ignore_ascii_case(a: &str, b: &str) -> (r: bool)
    ensures
        r == eq_ignore_case(a@, b@),
{
    let x = chars_of(a);
    let y = chars_of(b);
    let ghost la = a@.map_values(|c: char| ascii_lower(c));
    let ghost lb = b@.map_values(|c: char| ascii_lower(c));
    if x.len() != y.len() {
        assert(la.len() != lb.len());
        return false;
    }
    let mut i: usize = 0;
    while i < x.len()
        invariant
            i <= x@.len(),
            x@.len() == y@.len(),
            x@ == a@,
            y@ == b@,
            la == a@.map_values(|c: char| ascii_lower(c)),
            lb == b@.map_values(|c: char| ascii_lower(c)),
            forall|k: int| 0 <= k < i ==> la[k] == lb[k],
        decreases x@.len() - i,
    {
        if lower_ascii_char(x[i]) != lower_ascii_char(y[i]) {
            assert(la[i as int] != lb[i as int]);
            return false;
        }
        i = i + 1;
    }
    assert(la =~= lb);
    true
}

// ---------------------------------------------------------------------------
// Trimming
// ---------------------------------------------------------------------------

/// Which characters a trim takes off the two ends of a text.
#[derive(Clone, Copy, PartialEq, Eq, Debug)]
pub enum Strip {
    /// White space.
    Space,
    /// The double quote.
    Quote,
    /// The single quote.
    Apostrophe,
    /// The double and the single quote.
    AnyQuote,
}

/// Whether the trim `k` takes `c` off.
pub open spec fn strips(k: Strip, c: char) -> bool {
    match k {
        Strip::Space => is_space(c),
        Strip::Quote => c == '"',
        Strip::Apostrophe => c == '\'',
        Strip::AnyQuote => c == '"' || c == '\'',
    }
}

fn strips_char(k: Strip, c: char) -> (r: bool)
    ensures
        r == strips(k, c),
{
    match k {
        Strip::Space => char_is_space(c),
        Strip::Quote => c == '"',
        Strip::Apostrophe => c == '\'',
        Strip::AnyQuote => c == '"' || c == '\'',
    }
}

/// `s` without the leading characters that `k` takes off.
pub open spec fn trim_front(s: Text, k: Strip) -> Text
    decreases s.len(),
{
    if s.len() > 0 && strips(k, s[0]) {
        trim_front(s.skip(1), k)
    } else {
        s
    }
}

/// `s` without the trailing characters that `k` takes off.
pub open spec fn trim_back(s: Text, k: Strip) -> Text
    decreases s.len(),
{
    if s.len() > 0 && strips(k, s.last()) {
        trim_back(s.drop_last(), k)
    } else {
        s
    }
}

/// `s` without the characters at either end that `k` takes off.
pub open spec fn trimmed(s: Text, k: Strip) -> Text {
    trim_back(trim_front(s, k), k)
}

/// `s` without the characters at either end that `k` takes off.
pub fn trim_matches(s: &str, k: Strip) -> (r: String)
    ensures
        r@ == trimmed(s@, k),
{
    let cs = chars_of(s);
    let n = cs.len();
    let mut i: usize = 0;
    assert(s@.skip(0) =~= s@);
    while i < n && strips_char(k, cs[i])
        invariant
            i <= n == cs@.len(),
            cs@ == s@,
            trim_front(s@, k) == trim_front(s@.skip(i as int), k),
        decreases n - i,
    {
        assert(s@.skip(i as int).skip(1) =~= s@.skip(i as int + 1));
        i = i + 1;
    }
    let ghost front = s@.skip(i as int);
    assert(trim_front(s@, k) == front);
    let mut j: usize = n;
    assert(s@.subrange(i as int, n as int) =~= front);
    while i < j && strips_char(k, cs[j - 1])
        invariant
            i <= j <= n == cs@.len(),
            cs@ == s@,
            trim_back(front, k) == trim_back(s@.subrange(i as int, j as int), k),
        decreases j,
    {
        assert(s@.subrange(i as int, j as int).drop_last() =~= s@.subrange(i as int, j as int - 1));
        j = j - 1;
    }
    string_of(&cs, i, j)
}

/// A text whose two ends are kept is unchanged by the trim.
pub proof fn lemma_trimmed_unchanged(s: Text, k: Strip)
    requires
        s.len() == 0 || (!strips(k, s[0]) && !strips(k, s.last())),
    ensures
        trimmed(s, k) == s,
{
}

/// What a trim leaves is a contiguous part of the text.
pub proof fn lemma_trimmed_part(s: Text, k: Strip)
    ensures
        exists|a: int, b: int|
            0 <= a <= b <= s.len() && trimmed(s, k) == #[trigger] s.subrange(a, b),
{
    let f = trim_front(s, k);
    let a = lemma_trim_front_part(s, k);
    let n = lemma_trim_back_part(f, k);
    assert(f.take(n) =~= s.subrange(a, a + n));
}

proof fn lemma_trim_front_part(s: Text, k: Strip) -> (a: int)
    ensures
        0 <= a <= s.len(),
        trim_front(s, k) == s.skip(a),
    decreases s.len(),
{
    if s.len() > 0 && strips(k, s[0]) {
        let a = lemma_trim_front_part(s.skip(1), k);
        assert(s.skip(1).skip(a) =~= s.skip(a + 1));
        a + 1
    } else {
        assert(s.skip(0) =~= s);
        0
    }
}

proof fn lemma_trim_back_part(s: Text, k: Strip) -> (n: int)
    ensures
        0 <= n <= s.len(),
        trim_back(s, k) == s.take(n),
    decreases s.len(),
{
    if s.len() > 0 && strips(k, s.last()) {
        let n = lemma_trim_back_part(s.drop_last(), k);
        assert(s.drop_last().take(n) =~= s.take(n));
        n
    } else {
        assert(s.take(s.len() as int) =~= s);
        s.len() as int
    }
}

// ---------------------------------------------------------------------------
// Splitting and joining
// ---------------------------------------------------------------------------

/// The pieces of `s` between the occurrences of `sep`: always one more than
/// there are occurrences.
pub open spec fn split(s: Text, sep: char) -> Seq<Text>
    decreases s.len(),
{
    if s.len() == 0 {
        seq![Seq::empty()]
    } else {
        let before = split(s.drop_last(), sep);
        if s.last() == sep {
            before.push(Seq::empty())
        } else {
            before.drop_last().push(before.last().push(s.last()))
        }
    }
}

pub proof fn lemma_split_nonempty(s: Text, sep: char)
    ensures
        split(s, sep).len() >= 1,
    decreases s.len(),
{
    if s.len() > 0 {
        lemma_split_nonempty(s.drop_last(), sep);
    }
}

/// The pieces of a string between the occurrences of `sep`.
pub fn split_on(s: &str, sep: char) -> (r: Vec<String>)
    ensures
        r.deep_view() == split(s@, sep),
{
    let cs = chars_of(s);
    let n = cs.len();
    let mut done: Vec<String> = Vec::new();
    let mut cur = String::new();
    let mut i: usize = 0;
    assert(s@.take(0) =~= Seq::empty());
    assert(done.deep_view().push(cur@) =~= split(s@.take(0), sep));
    while i < n
        invariant
            i <= n == cs@.len(),
            cs@ == s@,
            done.deep_view().push(cur@) == split(s@.take(i as int), sep),
        decreases n - i,
    {
        let c = cs[i];
        let ghost before = split(s@.take(i as int), sep);
        let ghost d0 = done.deep_view();
        assert(s@.take(i as int + 1).drop_last() =~= s@.take(i as int));
        assert(before.drop_last() =~= d0);
        if c == sep {
            done.push(cur);
            assert(done.deep_view() =~= before);
            cur = String::new();
        } else {
            cur.push(c);
        }
        i = i + 1;
    }
    assert(s@.take(n as int) =~= s@);
    let ghost d1 = done.deep_view();
    let ghost last = cur@;
    done.push(cur);
    assert(done.deep_view() =~= d1.push(last));
    done
}

/// The parts with `sep` between each two neighbours.
pub open spec fn join(parts: Seq<Text>, sep: Text) -> Text
    decreases parts.len(),
{
    if parts.len() == 0 {
        Seq::empty()
    } else if parts.len() == 1 {
        parts[0]
    } else {
        join(parts.drop_last(), sep) + sep + parts.last()
    }
}

/// The strings with `sep` between each two neighbours.
pub fn join_with(parts: &Vec<String>, sep: &str) -> (r: String)
    ensures
        r@ == join(parts.deep_view(), sep@),
{
    let ghost ps = parts.deep_view();
    let mut r = String::new();
    let mut i: usize = 0;
    assert(ps.take(0) =~= Seq::empty());
    while i < parts.len()
        invariant
            i <= parts@.len(),
            ps == parts.deep_view(),
            r@ == join(ps.take(i as int), sep@),
        decreases parts@.len() - i,
    {
        assert(ps.take(i as int + 1).drop_last() =~= ps.take(i as int));
        assert(ps.take(i as int + 1).last() == parts@[i as int]@);
        if i > 0 {
            r.append(sep);
        }
        r.append(parts[i].as_str());
        if i == 0 {
            assert(r@ =~= ps[0]);
        }
        i = i + 1;
    }
    assert(ps.take(ps.len() as int) =~= ps);
    r
}

/// Splitting undoes joining, where no part holds the separator.
pub proof fn law_split_of_join(parts: Seq<Text>, sep: char)
    requires
        parts.len() >= 1,
        forall|i: int| 0 <= i < parts.len() ==> !(#[trigger] parts[i]).contains(sep),
    ensures
        split(join(parts, seq![sep]), sep) == parts,
    decreases parts.len(),
{
    if parts.len() == 1 {
        lemma_split_append(Seq::empty(), parts[0], sep);
        assert(Seq::<char>::empty() + parts[0] =~= parts[0]);
        let e = split(Seq::<char>::empty(), sep);
        assert(e =~= seq![Seq::<char>::empty()]);
        assert(e.drop_last().push(e.last() + parts[0]) =~= parts);
    } else {
        let head = parts.drop_last();
        assert(forall|i: int| 0 <= i < head.len() ==> head[i] == parts[i]);
        law_split_of_join(head, sep);
        let j = join(head, seq![sep]);
        let js = j + seq![sep];
        assert(js.drop_last() =~= j);
        assert(split(js, sep) == head.push(Seq::empty()));
        lemma_split_append(js, parts.last(), sep);
        let e = split(js, sep);
        assert(e.drop_last() =~= head);
        assert(e.last() + parts.last() =~= parts.last());
        assert(head.push(parts.last()) =~= parts);
    }
}

proof fn lemma_split_append(s: Text, t: Text, sep: char)
    requires
        !t.contains(sep),
    ensures
        ({
            let e = split(s, sep);
            split(s + t, sep) == e.drop_last().push(e.last() + t)
        }),
    decreases t.len(),
{
    lemma_split_nonempty(s, sep);
    let e = split(s, sep);
    if t.len() == 0 {
        assert(s + t =~= s);
        assert(e.last() + t =~= e.last());
        assert(e.drop_last().push(e.last()) =~= e);
    } else {
        let u = t.drop_last();
        assert(!u.contains(sep)) by {
            if u.contains(sep) {
                let k = choose|k: int| 0 <= k < u.len() && u[k] == sep;
                assert(t[k] == sep);
            }
        }
        lemma_split_append(s, u, sep);
        assert((s + t).drop_last() =~= s + u);
        assert((s + t).last() == t.last());
        assert(t[t.len() - 1] == t.last());
        let f = split(s + u, sep);
        assert(f.drop_last() =~= e.drop_last());
        assert(f.last() == e.last() + u);
        assert((e.last() + u).push(t.last()) =~= e.last() + t);
    }
}

/// The first piece of a text that begins with a piece and a separator.
pub proof fn lemma_split_first(a: Text, t: Text, sep: char)
    requires
        !a.contains(sep),
        t.len() == 0 || t[0] == sep,
    ensures
        split(a + t, sep)[0] == a,
        t.len() > 0 ==> split(a + t, sep).len() >= 2,
    decreases t.len(),
{
    if t.len() == 0 {
        lemma_split_append(Seq::empty(), a, sep);
        assert(Seq::<char>::empty() + a =~= a);
        assert(a + t =~= a);
        assert(split(Seq::<char>::empty(), sep) =~= seq![Seq::<char>::empty()]);
    } else {
        let u = t.drop_last();
        lemma_split_first(a, u, sep);
        lemma_split_nonempty(a + u, sep);
        assert((a + t).drop_last() =~= a + u);
        if u.len() == 0 {
            assert(t =~= seq![sep]);
        } else {
            assert(u[0] == t[0]);
        }
    }
}

/// The last piece of a text that ends with a separator and a piece.
pub proof fn lemma_split_last(s: Text, b: Text, sep: char)
    requires
        !b.contains(sep),
    ensures
        split(s + seq![sep] + b, sep).last() == b,
        split(s + seq![sep] + b, sep).len() >= 2,
{
    let js = s + seq![sep];
    assert(js.drop_last() =~= s);
    lemma_split_nonempty(s, sep);
    lemma_split_append(js, b, sep);
    assert(split(js, sep).last() + b =~= b);
}

/// Joining undoes splitting.
pub proof fn law_join_of_split(s: Text, sep: char)
    ensures
        join(split(s, sep), seq![sep]) == s,
    decreases s.len(),
{
    lemma_split_nonempty(s, sep);
    if s.len() > 0 {
        let before = split(s.drop_last(), sep);
        law_join_of_split(s.drop_last(), sep);
        lemma_split_nonempty(s.drop_last(), sep);
        let after = split(s, sep);
        assert(s =~= s.drop_last().push(s.last()));
        if s.last() == sep {
            assert(after.drop_last() =~= before);
            assert(s.drop_last() + seq![sep] + Seq::<char>::empty() =~= s);
        } else {
            assert(after.drop_last() =~= before.drop_last());
            if before.len() > 1 {
                let j = join(before.drop_last(), seq![sep]) + seq![sep];
                assert(j + before.last().push(s.last()) =~= (j + before.last()).push(s.last()));
            }
        }
    }
}

/// The maximal runs of characters that are not white space, and whether the
/// last of them reaches the end of `s`.
pub open spec fn words_open(s: Text) -> (Seq<Text>, bool)
    decreases s.len(),
{
    if s.len() == 0 {
        (Seq::empty(), false)
    } else {
        let (ws, open) = words_open(s.drop_last());
        if is_space(s.last()) {
            (ws, false)
        } else if open {
            (ws.drop_last().push(ws.last().push(s.last())), true)
        } else {
            (ws.push(seq![s.last()]), true)
        }
    }
}

/// The maximal runs of characters that are not white space.
pub open spec fn words(s: Text) -> Seq<Text> {
    words_open(s).0
}

/// The words of a string: its maximal runs without white space.
pub fn split_whitespace(s: &str) -> (r: Vec<String>)
    ensures
        r.deep_view() == words(s@),
{
    let cs = chars_of(s);
    let n = cs.len();
    let mut done: Vec<String> = Vec::new();
    let mut cur = String::new();
    let mut open = false;
    let mut i: usize = 0;
    assert(s@.take(0) =~= Seq::empty());
    assert(done.deep_view() =~= Seq::<Text>::empty());
    while i < n
        invariant
            i <= n == cs@.len(),
            cs@ == s@,
            words_open(s@.take(i as int)) == (
                if open {
                    done.deep_view().push(cur@)
                } else {
                    done.deep_view()
                },
                open,
            ),
        decreases n - i,
    {
        let c = cs[i];
        let ghost d0 = done.deep_view();
        let ghost ws = words(s@.take(i as int));
        assert(s@.take(i as int + 1).drop_last() =~= s@.take(i as int));
        assert(s@.take(i as int + 1).last() == c);
        if open {
            assert(ws.drop_last() =~= d0);
            assert(ws.last() == cur@);
        }
        if char_is_space(c) {
            if open {
                done.push(cur);
                assert(done.deep_view() =~= ws);
                cur = String::new();
                open = false;
            }
        } else if open {
            cur.push(c);
        } else {
            cur = String::new();
            cur.push(c);
            assert(cur@ =~= seq![c]);
            open = true;
        }
        i = i + 1;
    }
    assert(s@.take(n as int) =~= s@);
    if open {
        let ghost d1 = done.deep_view();
        let ghost last = cur@;
        done.push(cur);
        assert(done.deep_view() =~= d1.push(last));
    }
    done
}

// ---------------------------------------------------------------------------
// Searching and replacing
// ---------------------------------------------------------------------------

/// Whether `s` begins with `p`.
pub open spec fn starts_with(s: Text, p: Text) -> bool {
    p.is_prefix_of(s)
}

/// Whether `s` ends with `p`.
pub open spec fn ends_with(s: Text, p: Text) -> bool {
    p.is_suffix_of(s)
}

/// Whether `p` stands in `s` at position `i`.
pub open spec fn occurs_at(s: Text, p: Text, i: int) -> bool {
    0 <= i && i + p.len() <= s.len() && s.subrange(i, i + p.len()) == p
}

/// Whether `p` stands anywhere in `s`.
pub open spec fn contains_text(s: Text, p: Text) -> bool {
    exists|i: int| #[trigger] occurs_at(s, p, i)
}

fn occurs_at_chars(s: &Vec<char>, p: &Vec<char>, i: usize) -> (r: bool)
    requires
        i <= s@.len(),
    ensures
        r == occurs_at(s@, p@, i as int),
{
    let n: usize = s.len();
    if p.len() > n - i {
        return false;
    }
    let ghost w = s@.subrange(i as int, i + p@.len());
    let mut k: usize = 0;
    while k < p.len()
        invariant
            k <= p@.len(),
            i + p@.len() <= n == s@.len(),
            w == s@.subrange(i as int, i + p@.len()),
            forall|j: int| 0 <= j < k ==> w[j] == p@[j],
        decreases p@.len() - k,
    {
        if s[i + k] != p[k] {
            assert(w[k as int] != p@[k as int]);
            return false;
        }
        k = k + 1;
    }
    assert(w =~= p@);
    true
}

/// Whether the string `s` begins with `p`.
pub fn str_starts_with(s: &str, p: &str) -> (r: bool)
    ensures
        r == starts_with(s@, p@),
{
    let x = chars_of(s);
    let y = chars_of(p);
    let r = occurs_at_chars(&x, &y, 0);
    assert(p@.len() <= s@.len() ==> s@.subrange(0, p@.len() as int) =~= s@.take(p@.len() as int));
    r
}

/// Whether the string `s` ends with `p`.
pub fn str_ends_with(s: &str, p: &str) -> (r: bool)
    ensures
        r == ends_with(s@, p@),
{
    let x = chars_of(s);
    let y = chars_of(p);
    if y.len() > x.len() {
        return false;
    }
    occurs_at_chars(&x, &y, x.len() - y.len())
}

/// Whether `p` stands anywhere in the string `s`.
pub fn str_contains(s: &str, p: &str) -> (r: bool)
    ensures
        r == contains_text(s@, p@),
{
    let x = chars_of(s);
    let y = chars_of(p);
    let mut i: usize = 0;
    while i < x.len()
        invariant
            i <= x@.len(),
            x@ == s@,
            y@ == p@,
            forall|j: int| 0 <= j < i ==> !occurs_at(s@, p@, j),
        decreases x@.len() - i,
    {
        if occurs_at_chars(&x, &y, i) {
            return true;
        }
        i = i + 1;
    }
    let r = occurs_at_chars(&x, &y, i);
    if !r {
        assert forall|j: int| !occurs_at(s@, p@, j) by {}
    }
    r
}

/// `s` without the suffix `p`, where `s` ends with it.
pub open spec fn without_suffix(s: Text, p: Text) -> Option<Text> {
    if ends_with(s, p) {
        Some(s.take(s.len() - p.len()))
    } else {
        None
    }
}

/// `s` without the suffix `p`, where `s` ends with it.
pub fn strip_suffix(s: &str, p: &str) -> (r: Option<String>)
    ensures
        r.deep_view() == without_suffix(s@, p@),
{
    if str_ends_with(s, p) {
        let x = chars_of(s);
        let y = chars_of(p);
        let n = x.len() - y.len();
        assert(s@.subrange(0, n as int) =~= s@.take(n as int));
        Some(string_of(&x, 0, n))
    } else {
        None
    }
}

/// `s` with the occurrences of `from`, found from left to right without
/// overlap, each replaced by `to`.
pub open spec fn replaced(s: Text, from: Text, to: Text) -> Text
    decreases s.len(),
{
    if from.len() == 0 || s.len() < from.len() {
        s
    } else if occurs_at(s, from, 0) {
        to + replaced(s.skip(from.len() as int), from, to)
    } else {
        seq![s[0]] + replaced(s.skip(1), from, to)
    }
}

/// `s` with each occurrence of `from` replaced by `to`.
pub fn replace_all(s: &str, from: &str, to: &str) -> (r: String)
    requires
        from@.len() > 0,
    ensures
        r@ == replaced(s@, from@, to@),
{
    let x = chars_of(s);
    let p = chars_of(from);
    let mut r = String::new();
    let mut i: usize = 0;
    assert(s@.skip(0) =~= s@);
    assert(r@ + replaced(s@.skip(0), from@, to@) =~= replaced(s@, from@, to@));
    while i < x.len()
        invariant
            i <= x@.len(),
            x@ == s@,
            p@ == from@,
            p@.len() > 0,
            r@ + replaced(s@.skip(i as int), from@, to@) == replaced(s@, from@, to@),
        decreases x@.len() - i,
    {
        let ghost r0 = r@;
        let ghost rest = s@.skip(i as int);
        assert(rest.len() >= from@.len() ==> rest.subrange(0, from@.len() as int)
            =~= s@.subrange(i as int, i + from@.len()));
        if occurs_at_chars(&x, &p, i) {
            r.append(to);
            assert(rest.skip(from@.len() as int) =~= s@.skip(i + from@.len()));
            assert(r0 + (to@ + replaced(s@.skip(i + from@.len()), from@, to@)) =~= r@ + replaced(
                s@.skip(i + from@.len()),
                from@,
                to@,
            ));
            i = i + p.len();
        } else {
            r.push(x[i]);
            assert(rest.skip(1) =~= s@.skip(i + 1));
            proof {
                if rest.len() < from@.len() {
                    lemma_replaced_short(s@.skip(i as int + 1), from@, to@);
                    assert(rest =~= seq![rest[0]] + rest.skip(1));
                }
            }
            assert(r0 + (seq![x@[i as int]] + replaced(s@.skip(i + 1), from@, to@)) =~= r@ + replaced(
                s@.skip(i + 1),
                from@,
                to@,
            ));
            i = i + 1;
        }
    }
    assert(r@ + replaced(s@.skip(i as int), from@, to@) =~= r@);
    r
}

proof fn lemma_replaced_short(s: Text, from: Text, to: Text)
    requires
        s.len() < from.len(),
    ensures
        replaced(s, from, to) == s,
{
}

/// Replacing leaves a text without an occurrence unchanged.
pub proof fn lemma_replaced_absent(s: Text, from: Text, to: Text)
    requires
        !contains_text(s, from),
    ensures
        replaced(s, from, to) == s,
    decreases s.len(),
{
    if from.len() > 0 && s.len() >= from.len() {
        assert(!occurs_at(s, from, 0));
        assert(!contains_text(s.skip(1), from)) by {
            if contains_text(s.skip(1), from) {
                let i = choose|i: int| occurs_at(s.skip(1), from, i);
                assert(s.skip(1).subrange(i, i + from.len()) =~= s.subrange(i + 1, i + 1 + from.len()));
                assert(occurs_at(s, from, i + 1));
            }
        }
        lemma_replaced_absent(s.skip(1), from, to);
        assert(seq![s[0]] + s.skip(1) =~= s);
    }
}

/// The part of `s` before the first occurrence of `p`; all of `s` where there
/// is none.
pub open spec fn before(s: Text, p: Text) -> Text
    decreases s.len(),
{
    if s.len() == 0 || occurs_at(s, p, 0) {
        Seq::empty()
    } else {
        seq![s[0]] + before(s.skip(1), p)
    }
}

/// The part of the string `s` before the first occurrence of `p`.
pub fn str_before(s: &str, p: &str) -> (r: String)
    ensures
        r@ == before(s@, p@),
{
    let x = chars_of(s);
    let y = chars_of(p);
    let mut i: usize = 0;
    assert(s@.skip(0) =~= s@);
    assert(s@.take(0) + before(s@.skip(0), p@) =~= before(s@, p@));
    while i < x.len()
        invariant
            i <= x@.len(),
            x@ == s@,
            y@ == p@,
            s@.take(i as int) + before(s@.skip(i as int), p@) == before(s@, p@),
        decreases x@.len() - i,
    {
        let ghost rest = s@.skip(i as int);
        assert(rest.len() >= p@.len() ==> rest.subrange(0, p@.len() as int) =~= s@.subrange(
            i as int,
            i + p@.len(),
        ));
        if occurs_at_chars(&x, &y, i) {
            assert(s@.take(i as int) + before(rest, p@) =~= s@.subrange(0, i as int));
            return string_of(&x, 0, i);
        }
        assert(rest.skip(1) =~= s@.skip(i + 1));
        assert(s@.take(i as int) + (seq![s@[i as int]] + before(s@.skip(i + 1), p@)) =~= s@.take(
            i + 1,
        ) + before(s@.skip(i + 1), p@));
        i = i + 1;
    }
    assert(s@.take(i as int) + before(s@.skip(i as int), p@) =~= s@);
    s.to_owned()
}

/// Whether a string is among the given ones.
pub fn is_among(items: &Vec<String>, s: &str) -> (r: bool)
    ensures
        r == items.deep_view().contains(s@),
{
    let ghost xs = items.deep_view();
    let mut i: usize = 0;
    while i < items.len()
        invariant
            i <= items@.len(),
            xs == items.deep_view(),
            forall|k: int| 0 <= k < i ==> #[trigger] xs[k] != s@,
        decreases items@.len() - i,
    {
        assert(xs[i as int] == items@[i as int]@);
        if str_eq(items[i].as_str(), s) {
            return true;
        }
        i = i + 1;
    }
    false
}

} // verus!
