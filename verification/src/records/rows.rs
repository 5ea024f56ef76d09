//! Rows as lines of text, the times they carry, and the merge of updates into
//! them.

use crate::numbers;
use crate::outside;
use crate::outside::{parse_datetime, Instant};
use crate::query::parser::is_numeric_literal;
use crate::string_map::Duplicate;
use crate::text;
use crate::text::{
    concat3, join_with, replace_all, split_on, str_contains, str_eq, trim_matches, Strip, Text,
};
use vstd::prelude::*;

verus! {

/// The cells of a row.
pub type Row = Seq<Text>;

/// The rows of a table.
pub type Rows = Seq<Row>;

// ---------------------------------------------------------------------------
// Lines
// ---------------------------------------------------------------------------

/// The cells of a line: what stands between its commas, without white space
/// around it.
pub open spec fn line_cells(line: Text) -> Row {
    text::split(line, ',').map_values(|s: Text| text::trimmed(s, Strip::Space))
}

/// The rows of a file, one for each line.
pub open spec fn file_rows(lines: Seq<Text>) -> Rows {
    lines.map_values(|line: Text| line_cells(line))
}

/// The cells of a line.
pub fn parse_line(line: &str) -> (r: Vec<String>)
    ensures
        r.deep_view() == line_cells(line@),
{
    let pieces = split_on(line, ',');
    let mut r: Vec<String> = Vec::new();
    let mut i: usize = 0;
    while i < pieces.len()
        invariant
            i <= pieces@.len(),
            r@.len() == i,
            forall|k: int|
                0 <= k < i ==> (#[trigger] r@[k])@ == text::trimmed(pieces@[k]@, Strip::Space),
        decreases pieces@.len() - i,
    {
        r.push(trim_matches(pieces[i].as_str(), Strip::Space));
        i = i + 1;
    }
    assert(r.deep_view() =~= line_cells(line@));
    r
}

/// The rows of a file, given its lines.
pub fn parse_lines(lines: &Vec<String>) -> (r: Vec<Vec<String>>)
    ensures
        r.deep_view() == file_rows(lines.deep_view()),
{
    let mut r: Vec<Vec<String>> = Vec::new();
    let mut i: usize = 0;
    while i < lines.len()
        invariant
            i <= lines@.len(),
            r@.len() == i,
            forall|k: int| 0 <= k < i ==> (#[trigger] r@[k]).deep_view() == line_cells(lines@[k]@),
        decreases lines@.len() - i,
    {
        r.push(parse_line(lines[i].as_str()));
        i = i + 1;
    }
    assert(r.deep_view() =~= file_rows(lines.deep_view()));
    r
}

/// A value as it is stored: a number as it is, anything else in double quotes,
/// with a backslash before each double quote in it.
pub open spec fn quoted(value: Text) -> Text {
    if numbers::is_number_text(value) {
        value
    } else {
        "\""@ + text::replaced(value, "\""@, "\\\""@) + "\""@
    }
}

/// The cells of a row as they are stored.
pub open spec fn quoted_row(row: Row) -> Row {
    row.map_values(|value: Text| quoted(value))
}

/// The line for a row of stored cells.
pub open spec fn cells_line(cells: Row) -> Text {
    text::join(cells, ","@)
}

/// A value as it is stored.
pub fn quote_if_needed(value: &str) -> (r: String)
    ensures
        r@ == quoted(value@),
{
    if is_numeric_literal(value) {
        return value.to_owned();
    }
    proof {
        reveal_strlit("\"");
    }
    let escaped = replace_all(value, "\"", "\\\"");
    concat3("\"", escaped.as_str(), "\"")
}

/// The cells of a row as they are stored.
pub fn quote_row(row: &Vec<String>) -> (r: Vec<String>)
    ensures
        r.deep_view() == quoted_row(row.deep_view()),
{
    let mut r: Vec<String> = Vec::new();
    let mut i: usize = 0;
    while i < row.len()
        invariant
            i <= row@.len(),
            r@.len() == i,
            forall|k: int| 0 <= k < i ==> (#[trigger] r@[k])@ == quoted(row@[k]@),
        decreases row@.len() - i,
    {
        r.push(quote_if_needed(row[i].as_str()));
        i = i + 1;
    }
    assert(r.deep_view() =~= quoted_row(row.deep_view()));
    r
}

/// The line for a row of stored cells.
pub fn serialize_cells(cells: &Vec<String>) -> (r: String)
    ensures
        r@ == cells_line(cells.deep_view()),
{
    join_with(cells, ",")
}

/// Whether a cell can be read back: it holds no comma, and no white space at
/// its ends.
pub open spec fn plain_cell(cell: Text) -> bool {
    !cell.contains(',') && text::trimmed(cell, Strip::Space) == cell
}

/// A row that was written to a file reads back as it was written, where each of
/// its cells can be read back.
pub proof fn law_line_reads_back(cells: Row)
    requires
        cells.len() >= 1,
        forall|i: int| 0 <= i < cells.len() ==> plain_cell(#[trigger] cells[i]),
    ensures
        line_cells(cells_line(cells)) == cells,
{
    reveal_strlit(",");
    assert(","@ =~= seq![',']);
    text::law_split_of_join(cells, ',');
    assert(line_cells(cells_line(cells)) =~= cells);
}

/// The stored form of a value without a comma can be read back.
pub proof fn law_stored_value_reads_back(value: Text)
    requires
        !value.contains(','),
    ensures
        plain_cell(quoted(value)),
{
    let q = quoted(value);
    lemma_stored_value_is_trimmed(value);
    if !numbers::is_number_text(value) {
        reveal_strlit("\"");
        reveal_strlit("\\\"");
        let inner = text::replaced(value, "\""@, "\\\""@);
        lemma_replaced_has_no(value, "\""@, "\\\""@, ',');
        if q.contains(',') {
            let k = choose|k: int| 0 <= k < q.len() && q[k] == ',';
            assert(0 < k < q.len() - 1);
            assert(inner[k - 1] == ',');
        }
    }
}

/// The stored form of a value has no white space at its ends.
pub proof fn lemma_stored_value_is_trimmed(value: Text)
    ensures
        text::trimmed(quoted(value), Strip::Space) == quoted(value),
{
    let q = quoted(value);
    if numbers::is_number_text(value) {
        lemma_number_has_no_space(value);
        text::lemma_trimmed_unchanged(value, Strip::Space);
    } else {
        reveal_strlit("\"");
        assert(q[0] == '"');
        assert(q.last() == '"');
        text::lemma_trimmed_unchanged(q, Strip::Space);
    }
}

proof fn lemma_replaced_has_no(s: Text, from: Text, to: Text, c: char)
    requires
        !s.contains(c),
        !to.contains(c),
    ensures
        !text::replaced(s, from, to).contains(c),
    decreases s.len(),
{
    if from.len() == 0 || s.len() < from.len() {
    } else if text::occurs_at(s, from, 0) {
        let rest = s.skip(from.len() as int);
        assert(!rest.contains(c)) by {
            if rest.contains(c) {
                let k = choose|k: int| 0 <= k < rest.len() && rest[k] == c;
                assert(s[k + from.len()] == c);
            }
        }
        lemma_replaced_has_no(rest, from, to, c);
        lemma_no_char_in_sum(to, text::replaced(rest, from, to), c);
    } else {
        let rest = s.skip(1);
        assert(!rest.contains(c)) by {
            if rest.contains(c) {
                let k = choose|k: int| 0 <= k < rest.len() && rest[k] == c;
                assert(s[k + 1] == c);
            }
        }
        lemma_replaced_has_no(rest, from, to, c);
        assert(s[0] != c);
        assert(!seq![s[0]].contains(c));
        lemma_no_char_in_sum(seq![s[0]], text::replaced(rest, from, to), c);
    }
}

proof fn lemma_no_char_in_sum(a: Text, b: Text, c: char)
    requires
        !a.contains(c),
        !b.contains(c),
    ensures
        !(a + b).contains(c),
{
    if (a + b).contains(c) {
        let k = choose|k: int| 0 <= k < (a + b).len() && (a + b)[k] == c;
        if k < a.len() {
            assert(a[k] == c);
        } else {
            assert(b[k - a.len()] == c);
        }
    }
}

/// Whether neither end of a text is white space.
spec fn solid_ends(s: Text) -> bool {
    s.len() > 0 && !text::is_space(s[0]) && !text::is_space(s.last())
}

proof fn lemma_number_has_no_space(s: Text)
    requires
        numbers::is_number_text(s),
    ensures
        solid_ends(s),
{
    if numbers::i64_text(s) is Some {
        let digits = if numbers::is_digits(s) {
            s
        } else {
            s.skip(1)
        };
        assert(text::is_digit(digits[digits.len() - 1]));
        assert(digits.last() == s.last());
        assert(text::is_digit(digits[0]));
    } else {
        let signed = s.len() > 0 && (s[0] == '+' || s[0] == '-');
        let u = if signed {
            s.skip(1)
        } else {
            s
        };
        assert(solid_ends(u)) by {
            if numbers::is_unsigned_decimal(u) {
                lemma_decimal_has_no_space(u);
            } else {
                lemma_word_has_no_space(u);
            }
        }
        assert(s.last() == u.last());
    }
}

proof fn lemma_word_has_no_space(u: Text)
    requires
        text::eq_ignore_case(u, "inf"@) || text::eq_ignore_case(u, "infinity"@)
            || text::eq_ignore_case(u, "nan"@),
    ensures
        solid_ends(u),
{
    reveal_strlit("inf");
    reveal_strlit("infinity");
    reveal_strlit("nan");
    let w = if text::eq_ignore_case(u, "inf"@) {
        "inf"@
    } else if text::eq_ignore_case(u, "infinity"@) {
        "infinity"@
    } else {
        "nan"@
    };
    let f = |c: char| text::ascii_lower(c);
    let lu = u.map_values(f);
    let lw = w.map_values(f);
    assert(lu == lw);
    assert(lu.len() == u.len() && lw.len() == w.len());
    assert(lu[0] == text::ascii_lower(u[0]));
    assert(lw[0] == text::ascii_lower(w[0]));
    let n = u.len() as int - 1;
    assert(lu[n] == text::ascii_lower(u[n]));
    assert(lw[n] == text::ascii_lower(w[n]));
}

proof fn lemma_digits_end_bounds(s: Text, i: int)
    requires
        0 <= i <= s.len(),
    ensures
        i <= numbers::digits_end(s, i) <= s.len(),
        numbers::digits_end(s, i) > i ==> text::is_digit(s[i]) && text::is_digit(
            s[numbers::digits_end(s, i) - 1],
        ),
    decreases s.len() - i,
{
    if i < s.len() && text::is_digit(s[i]) {
        lemma_digits_end_bounds(s, i + 1);
    }
}

proof fn lemma_decimal_has_no_space(s: Text)
    requires
        numbers::is_unsigned_decimal(s),
    ensures
        solid_ends(s),
{
    let a = numbers::digits_end(s, 0);
    lemma_digits_end_bounds(s, 0);
    let point = a < s.len() && s[a] == '.';
    let b = if point {
        numbers::digits_end(s, a + 1)
    } else {
        a
    };
    if point {
        lemma_digits_end_bounds(s, a + 1);
    }
    if b < s.len() {
        let c = if b + 1 < s.len() && (s[b + 1] == '+' || s[b + 1] == '-') {
            b + 2
        } else {
            b + 1
        };
        lemma_digits_end_bounds(s, c);
    }
}

/// Taking the quotes off a stored value gives the value back, where it holds no
/// double quote itself.
pub proof fn law_unquote_undoes_quote(value: Text)
    requires
        !value.contains('"'),
    ensures
        text::trimmed(quoted(value), Strip::Quote) == value,
{
    reveal_strlit("\"");
    assert("\""@ =~= seq!['"']);
    if value.len() > 0 {
        assert(value[0] != '"');
        assert(value[value.len() - 1] != '"');
    }
    if numbers::is_number_text(value) {
        text::lemma_trimmed_unchanged(value, Strip::Quote);
    } else {
        assert(!text::contains_text(value, "\""@)) by {
            if text::contains_text(value, "\""@) {
                let i = choose|i: int| text::occurs_at(value, "\""@, i);
                assert(value.subrange(i, i + 1)[0] == '"');
                assert(value[i] == '"');
            }
        }
        text::lemma_replaced_absent(value, "\""@, "\\\""@);
        let q = seq!['"'] + value + seq!['"'];
        assert(quoted(value) == q);
        assert(q.skip(1) =~= value + seq!['"']);
        let rest = value + seq!['"'];
        if value.len() > 0 {
            assert(text::trim_front(q, Strip::Quote) == text::trim_front(rest, Strip::Quote));
            assert(rest[0] == value[0]);
            assert(text::trim_front(rest, Strip::Quote) == rest);
            assert(rest.drop_last() =~= value);
            assert(text::trim_back(rest, Strip::Quote) == text::trim_back(value, Strip::Quote));
        } else {
            assert(rest =~= seq!['"']);
            assert(rest.skip(1) =~= value);
            assert(text::trim_front(rest, Strip::Quote) == text::trim_front(value, Strip::Quote));
            assert(text::trim_front(q, Strip::Quote) == value);
        }
    }
}

// ---------------------------------------------------------------------------
// The time of a row
// ---------------------------------------------------------------------------

/// Whether a cell looks like a date and time: it holds a hyphen and a colon.
pub open spec fn looks_like_time(cell: Text) -> bool {
    text::contains_text(cell, "-"@) && text::contains_text(cell, ":"@)
}

/// The first cell of a row that looks like a date and time.
pub open spec fn time_cell(row: Row) -> Option<Text>
    decreases row.len(),
{
    if row.len() == 0 {
        None
    } else if looks_like_time(row[0]) {
        Some(row[0])
    } else {
        time_cell(row.skip(1))
    }
}

/// The time that a cell holds; double quotes around it do not count.
pub open spec fn cell_time(cell: Text) -> Option<Instant> {
    outside::datetime_of(text::trimmed(cell, Strip::Quote), "%Y-%m-%d %H:%M:%S"@)
}

/// The time that a row carries.
pub open spec fn time_of(row: Row) -> Option<Instant> {
    match time_cell(row) {
        Some(cell) => cell_time(cell),
        None => None,
    }
}

/// The time at which a row was written: its timestamp, which is the last cell,
/// and where that is no time, the time that the row carries.
pub open spec fn written_at(row: Row) -> Option<Instant> {
    if row.len() > 0 && cell_time(row.last()) is Some {
        cell_time(row.last())
    } else {
        time_of(row)
    }
}

fn find_time_cell(row: &Vec<String>) -> (r: Option<usize>)
    ensures
        match r {
            Some(i) => i < row@.len() && time_cell(row.deep_view()) == Some(row@[i as int]@),
            None => time_cell(row.deep_view()) is None,
        },
{
    let ghost cells = row.deep_view();
    let mut i: usize = 0;
    assert(cells.skip(0) =~= cells);
    while i < row.len()
        invariant
            i <= row@.len(),
            cells == row.deep_view(),
            time_cell(cells) == time_cell(cells.skip(i as int)),
        decreases row@.len() - i,
    {
        assert(cells.skip(i as int)[0] == row@[i as int]@);
        assert(cells.skip(i as int).skip(1) =~= cells.skip(i as int + 1));
        if str_contains(row[i].as_str(), "-") && str_contains(row[i].as_str(), ":") {
            return Some(i);
        }
        i = i + 1;
    }
    None
}

fn read_cell_time(cell: &str) -> (r: Option<Instant>)
    ensures
        r == cell_time(cell@),
{
    let clean = trim_matches(cell, Strip::Quote);
    parse_datetime(clean.as_str(), "%Y-%m-%d %H:%M:%S")
}

/// The time that a row carries; double quotes around it do not count.
pub fn parse_timestamp_from_row(row: &Vec<String>) -> (r: Option<Instant>)
    ensures
        r == time_of(row.deep_view()),
{
    match find_time_cell(row) {
        Some(i) => read_cell_time(row[i].as_str()),
        None => None,
    }
}

/// The time at which a row was written.
pub fn row_written_at(row: &Vec<String>) -> (r: Option<Instant>)
    ensures
        r == written_at(row.deep_view()),
{
    let n: usize = row.len();
    if n > 0 {
        assert(row.deep_view().last() == row@[n - 1]@);
        let last = read_cell_time(row[n - 1].as_str());
        if last.is_some() {
            return last;
        }
    }
    parse_timestamp_from_row(row)
}

/// Whether `a` is earlier than `b`.
pub open spec fn earlier(a: Instant, b: Instant) -> bool {
    a.0 < b.0 || (a.0 == b.0 && a.1 < b.1)
}

/// Whether `a` comes before `b` where no time comes before every time.
pub open spec fn earlier_or_none(a: Option<Instant>, b: Option<Instant>) -> bool {
    match (a, b) {
        (None, Some(_)) => true,
        (Some(x), Some(y)) => earlier(x, y),
        _ => false,
    }
}

/// Whether `a` is earlier than `b`.
pub fn is_earlier(a: Instant, b: Instant) -> (r: bool)
    ensures
        r == earlier(a, b),
{
    a.0 < b.0 || (a.0 == b.0 && a.1 < b.1)
}

fn is_earlier_or_none(a: Option<Instant>, b: Option<Instant>) -> (r: bool)
    ensures
        r == earlier_or_none(a, b),
{
    match (a, b) {
        (None, Some(_)) => true,
        (Some(x), Some(y)) => is_earlier(x, y),
        _ => false,
    }
}

/// Whether a row carries a time that is not after `target`.
pub open spec fn not_after(row: Row, target: Instant) -> bool {
    match time_of(row) {
        Some(t) => !earlier(target, t),
        None => false,
    }
}

/// Whether a row carries a time that is not after `target_timestamp`.
pub fn row_timestamp_is_before(row: &Vec<String>, target_timestamp: Instant) -> (r: bool)
    ensures
        r == not_after(row.deep_view(), target_timestamp),
{
    match parse_timestamp_from_row(row) {
        Some(t) => !is_earlier(target_timestamp, t),
        None => false,
    }
}

// ---------------------------------------------------------------------------
// Sorting by time
// ---------------------------------------------------------------------------

/// `row` among rows that are sorted from the earliest to the latest: after the
/// last that is not later.
pub open spec fn insert_by_time(sorted: Rows, row: Row) -> Rows
    decreases sorted.len(),
{
    if sorted.len() == 0 || !earlier_or_none(written_at(row), written_at(sorted.last())) {
        sorted.push(row)
    } else {
        insert_by_time(sorted.drop_last(), row).push(sorted.last())
    }
}

/// The rows from the earliest to the latest, those without a time first. Rows of
/// one time keep their order.
pub open spec fn earliest_first(rows: Rows) -> Rows
    decreases rows.len(),
{
    if rows.len() == 0 {
        Seq::empty()
    } else {
        insert_by_time(earliest_first(rows.drop_last()), rows.last())
    }
}

proof fn lemma_insert_splits(sorted: Rows, row: Row, i: int)
    requires
        0 <= i <= sorted.len(),
        i > 0 ==> !earlier_or_none(written_at(row), written_at(sorted[i - 1])),
        forall|k: int|
            i <= k < sorted.len() ==> earlier_or_none(written_at(row), written_at(#[trigger] sorted[k])),
    ensures
        insert_by_time(sorted, row) == sorted.insert(i, row),
    decreases sorted.len(),
{
    if i == sorted.len() {
        assert(sorted.insert(i, row) =~= sorted.push(row));
    } else {
        let d = sorted.drop_last();
        assert(forall|k: int| 0 <= k < d.len() ==> d[k] == sorted[k]);
        lemma_insert_splits(d, row, i);
        assert(sorted.insert(i, row) =~= d.insert(i, row).push(sorted.last()));
    }
}

/// The rows from the earliest to the latest.
pub fn sort_earliest_first(rows: &Vec<Vec<String>>) -> (r: Vec<Vec<String>>)
    ensures
        r.deep_view() == earliest_first(rows.deep_view()),
{
    let ghost rs = rows.deep_view();
    let mut sorted: Vec<Vec<String>> = Vec::new();
    let mut times: Vec<Option<Instant>> = Vec::new();
    let mut i: usize = 0;
    assert(rs.take(0) =~= Seq::<Row>::empty());
    assert(sorted.deep_view() =~= Seq::<Row>::empty());
    while i < rows.len()
        invariant
            i <= rows@.len(),
            rs == rows.deep_view(),
            sorted.deep_view() == earliest_first(rs.take(i as int)),
            times@.len() == sorted@.len(),
            forall|k: int|
                0 <= k < times@.len() ==> #[trigger] times@[k] == written_at(
                    sorted.deep_view()[k]),
        decreases rows@.len() - i,
    {
        let t = row_written_at(&rows[i]);
        let ghost before = sorted.deep_view();
        let ghost row = rs[i as int];
        let mut j: usize = sorted.len();
        while j > 0 && is_earlier_or_none(t, times[j - 1])
            invariant
                j <= sorted@.len(),
                before == sorted.deep_view(),
                times@.len() == sorted@.len(),
                t == written_at(row),
                forall|k: int|
                    0 <= k < times@.len() ==> #[trigger] times@[k] == written_at(before[k]),
                forall|k: int|
                    j <= k < sorted@.len() ==> earlier_or_none(t, written_at(#[trigger] before[k])),
            decreases j,
        {
            assert(times@[j - 1] == written_at(before[j - 1]));
            j = j - 1;
        }
        proof {
            if j > 0 {
                assert(times@[j - 1] == written_at(before[j - 1]));
            }
            lemma_insert_splits(before, row, j as int);
        }
        let ghost times0 = times@;
        sorted.insert(j, rows[i].duplicate());
        times.insert(j, t);
        proof {
            assert(sorted.deep_view() =~= before.insert(j as int, row));
            assert(rs.take(i as int + 1).drop_last() =~= rs.take(i as int));
            assert forall|k: int| 0 <= k < times@.len() implies #[trigger] times@[k] == written_at(
                sorted.deep_view()[k]) by {
                if k < j {
                    assert(times@[k] == times0[k]);
                } else if k > j {
                    assert(times@[k] == times0[k - 1]);
                }
            }
        }
        i = i + 1;
    }
    assert(rs.take(i as int) =~= rs);
    sorted
}

/// Whether rows go from the earliest to the latest.
pub open spec fn is_earliest_first(rows: Rows) -> bool {
    forall|i: int, j: int|
        0 <= i < j < rows.len() ==> !earlier_or_none(written_at(#[trigger] rows[j]), written_at(#[trigger] rows[i]))
}

/// The rows of one time, in their order.
pub open spec fn rows_at(rows: Rows, time: Option<Instant>) -> Rows
    decreases rows.len(),
{
    if rows.len() == 0 {
        Seq::empty()
    } else if written_at(rows.last()) == time {
        rows_at(rows.drop_last(), time).push(rows.last())
    } else {
        rows_at(rows.drop_last(), time)
    }
}

/// Sorting puts the latest row last, and is stable: of every time it keeps the
/// rows and their order.
pub proof fn law_sort_is_stable(rows: Rows, time: Option<Instant>)
    ensures
        is_earliest_first(earliest_first(rows)),
        rows_at(earliest_first(rows), time) == rows_at(rows, time),
        earliest_first(rows).len() == rows.len(),
    decreases rows.len(),
{
    if rows.len() > 0 {
        law_sort_is_stable(rows.drop_last(), time);
        lemma_insert_keeps(
            earliest_first(rows.drop_last()),
            rows.last(),
            time);
    }
}

proof fn lemma_insert_keeps(sorted: Rows, row: Row, time: Option<Instant>)
    requires
        is_earliest_first(sorted),
    ensures
        is_earliest_first(insert_by_time(sorted, row)),
        insert_by_time(sorted, row).len() == sorted.len() + 1,
        forall|k: int|
            0 <= k <= sorted.len() ==> #[trigger] insert_by_time(sorted, row)[k] == row
                || exists|m: int| 0 <= m < sorted.len() && insert_by_time(sorted, row)[k] == #[trigger] sorted[m],
        rows_at(insert_by_time(sorted, row), time) == if written_at(row)
            == time {
            rows_at(sorted, time).push(row)
        } else {
            rows_at(sorted, time)
        },
    decreases sorted.len(),
{
    let result = insert_by_time(sorted, row);
    if sorted.len() == 0 || !earlier_or_none(written_at(row), written_at(sorted.last())) {
        assert(result.drop_last() =~= sorted);
        assert forall|i: int, j: int| 0 <= i < j < result.len() implies !earlier_or_none(written_at(#[trigger] result[j]), written_at(#[trigger] result[i])) by {
            if j == sorted.len() {
                assert(result[j] == row);
                assert(result[i] == sorted[i]);
                assert(sorted[sorted.len() - 1] == sorted.last());
            } else {
                assert(result[i] == sorted[i] && result[j] == sorted[j]);
            }
        }
        assert forall|k: int| 0 <= k <= sorted.len() implies #[trigger] result[k] == row
            || exists|m: int| 0 <= m < sorted.len() && result[k] == #[trigger] sorted[m] by {
            if k < sorted.len() {
                assert(result[k] == sorted[k]);
            }
        }
    } else {
        let d = sorted.drop_last();
        assert forall|i: int, j: int| 0 <= i < j < d.len() implies !earlier_or_none(written_at(#[trigger] d[j]), written_at(#[trigger] d[i])) by {
            assert(d[i] == sorted[i] && d[j] == sorted[j]);
        }
        lemma_insert_keeps(d, row, time);
        let inner = insert_by_time(d, row);
        assert(result.drop_last() =~= inner);
        assert forall|i: int, j: int| 0 <= i < j < result.len() implies !earlier_or_none(written_at(#[trigger] result[j]), written_at(#[trigger] result[i])) by {
            if j == inner.len() {
                assert(result[j] == sorted.last());
                assert(result[i] == inner[i]);
                if inner[i] != row {
                    let m = choose|m: int| 0 <= m < d.len() && inner[i] == #[trigger] d[m];
                    assert(d[m] == sorted[m]);
                    assert(sorted[sorted.len() - 1] == sorted.last());
                }
            } else {
                assert(result[i] == inner[i] && result[j] == inner[j]);
            }
        }
        assert forall|k: int| 0 <= k <= sorted.len() implies #[trigger] result[k] == row
            || exists|m: int| 0 <= m < sorted.len() && result[k] == #[trigger] sorted[m] by {
            if k == sorted.len() {
                assert(result[k] == sorted[sorted.len() - 1]);
            } else {
                assert(result[k] == inner[k]);
                if inner[k] != row {
                    let m = choose|m: int| 0 <= m < d.len() && inner[k] == #[trigger] d[m];
                    assert(sorted[m] == d[m]);
                }
            }
        }
    }
}

/// Every row of the sorted rows is one of the rows.
pub proof fn lemma_sorted_from(rows: Rows, k: int)
    requires
        0 <= k < earliest_first(rows).len(),
    ensures
        exists|m: int|
            0 <= m < rows.len() && earliest_first(rows)[k] == #[trigger] rows[m],
    decreases rows.len(),
{
    if rows.len() > 0 {
        let d = rows.drop_last();
        let before = earliest_first(d);
        law_sort_is_stable(d, None);
        lemma_insert_keeps(before, rows.last(), None);
        let x = earliest_first(rows)[k];
        if x == rows.last() {
            assert(x == rows[rows.len() - 1]);
        } else {
            let j = choose|j: int| 0 <= j < before.len() && x == #[trigger] before[j];
            lemma_sorted_from(d, j);
            let m = choose|m: int| 0 <= m < d.len() && before[j] == #[trigger] d[m];
            assert(x == rows[m]);
        }
    }
}

// ---------------------------------------------------------------------------
// Merging updates
// ---------------------------------------------------------------------------

/// The last of the updates whose first cell is `id`.
pub open spec fn last_update(updates: Rows, id: Text) -> Option<Row>
    decreases updates.len(),
{
    if updates.len() == 0 {
        None
    } else if updates.last().len() > 0 && updates.last()[0] == id {
        Some(updates.last())
    } else {
        last_update(updates.drop_last(), id)
    }
}

/// A row after the updates: the last update with its first cell, where there is
/// one.
pub open spec fn updated_row(row: Row, updates: Rows) -> Row {
    if row.len() == 0 {
        row
    } else {
        match last_update(updates, row[0]) {
            Some(update) => update,
            None => row,
        }
    }
}

/// A table after the updates.
pub open spec fn merged_table(initial: Rows, updates: Rows) -> Rows {
    initial.map_values(|row: Row| updated_row(row, updates))
}

fn find_last_update(updates: &Vec<Vec<String>>, id: &str) -> (r: Option<usize>)
    ensures
        match r {
            Some(i) => i < updates@.len() && last_update(updates.deep_view(), id@) == Some(
                updates@[i as int].deep_view(),
            ),
            None => last_update(updates.deep_view(), id@) is None,
        },
{
    let ghost us = updates.deep_view();
    let mut i: usize = updates.len();
    assert(us.take(i as int) =~= us);
    while i > 0
        invariant
            i <= updates@.len(),
            us == updates.deep_view(),
            last_update(us, id@) == last_update(us.take(i as int), id@),
        decreases i,
    {
        assert(us.take(i as int).last() == updates@[i - 1].deep_view());
        assert(us.take(i as int).drop_last() =~= us.take(i - 1));
        if updates[i - 1].len() > 0 {
            assert(us.take(i as int).last()[0] == updates@[i - 1]@[0]@);
            if str_eq(updates[i - 1][0].as_str(), id) {
                return Some(i - 1);
            }
        }
        i = i - 1;
    }
    None
}

/// A table after the updates: each row is replaced by the last update with its
/// first cell, where there is one. The order of the rows is kept.
pub fn merge_table_and_update(
    initial_table_data: &Vec<Vec<String>>,
    updates_data: &Vec<Vec<String>>,
) -> (r: Vec<Vec<String>>)
    ensures
        r.deep_view() == merged_table(initial_table_data.deep_view(), updates_data.deep_view()),
{
    let ghost us = updates_data.deep_view();
    let mut r: Vec<Vec<String>> = Vec::new();
    let mut i: usize = 0;
    while i < initial_table_data.len()
        invariant
            i <= initial_table_data@.len(),
            us == updates_data.deep_view(),
            r@.len() == i,
            forall|k: int|
                0 <= k < i ==> (#[trigger] r@[k]).deep_view() == updated_row(
                    initial_table_data@[k].deep_view(),
                    us,
                ),
        decreases initial_table_data@.len() - i,
    {
        let row = &initial_table_data[i];
        let found = if row.len() > 0 {
            assert(row.deep_view()[0] == row@[0]@);
            find_last_update(updates_data, row[0].as_str())
        } else {
            None
        };
        match found {
            Some(j) => {
                r.push(updates_data[j].duplicate());
            },
            None => {
                r.push(row.duplicate());
            },
        }
        i = i + 1;
    }
    assert(r.deep_view() =~= merged_table(initial_table_data.deep_view(), us));
    r
}

/// Whether a cell of an update counts: it is neither empty nor the mark of a
/// removed row.
pub open spec fn cell_counts(cell: Text) -> bool {
    cell.len() > 0 && cell != "ROW_REMOVED"@
}

/// A row with the cells of an update that count.
pub open spec fn apply_update(row: Row, update: Row) -> Row {
    Seq::new(
        row.len(),
        |i: int|
            if i < update.len() && cell_counts(update[i]) {
                update[i]
            } else {
                row[i]
            },
    )
}

/// A row with the cells of several updates, one update after the other.
pub open spec fn apply_updates(row: Row, updates: Rows) -> Row
    decreases updates.len(),
{
    if updates.len() == 0 {
        row
    } else {
        apply_update(apply_updates(row, updates.drop_last()), updates.last())
    }
}

/// Whether no update has a cell that counts where the row has none.
pub open spec fn updates_fit(row: Row, updates: Rows) -> bool {
    forall|u: int, i: int|
        0 <= u < updates.len() && row.len() <= i < (#[trigger] updates[u]).len() ==> !cell_counts(
            #[trigger] updates[u][i],
        )
}

/// Updates that fit a row fit it in any order.
pub proof fn lemma_sorted_updates_fit(row: Row, updates: Rows)
    requires
        updates_fit(row, updates),
    ensures
        updates_fit(row, earliest_first(updates)),
{
    let sorted = earliest_first(updates);
    assert forall|u: int, i: int|
        0 <= u < sorted.len() && row.len() <= i < (#[trigger] sorted[u]).len() implies !cell_counts(
        #[trigger] sorted[u][i],
    ) by {
        lemma_sorted_from(updates, u);
        let m = choose|m: int| 0 <= m < updates.len() && sorted[u] == #[trigger] updates[m];
        assert(!cell_counts(updates[m][i]));
    }
}

pub proof fn lemma_apply_updates_len(row: Row, updates: Rows)
    ensures
        apply_updates(row, updates).len() == row.len(),
    decreases updates.len(),
{
    if updates.len() > 0 {
        lemma_apply_updates_len(row, updates.drop_last());
    }
}

/// A row with the cells of several updates, one update after the other.
pub fn merge_row_with_updates(initial_row: &Vec<String>, updates: &Vec<Vec<String>>) -> (r: Vec<
    String,
>)
    requires
        updates_fit(initial_row.deep_view(), updates.deep_view()),
    ensures
        r.deep_view() == apply_updates(initial_row.deep_view(), updates.deep_view()),
{
    let ghost us = updates.deep_view();
    let ghost row0 = initial_row.deep_view();
    let mut row: Vec<String> = initial_row.duplicate();
    let mut u: usize = 0;
    assert(us.take(0) =~= Seq::<Row>::empty());
    while u < updates.len()
        invariant
            u <= updates@.len(),
            us == updates.deep_view(),
            updates_fit(row0, us),
            row.deep_view() == apply_updates(row0, us.take(u as int)),
            row@.len() == row0.len(),
        decreases updates@.len() - u,
    {
        let update = &updates[u];
        let ghost before = row.deep_view();
        let ghost up = us[u as int];
        assert(up == update.deep_view());
        let mut i: usize = 0;
        while i < update.len()
            invariant
                i <= update@.len(),
                up == update.deep_view(),
                us == updates.deep_view(),
                u < us.len(),
                up == us[u as int],
                updates_fit(row0, us),
                row@.len() == before.len() == row0.len(),
                forall|k: int|
                    0 <= k < row@.len() ==> (#[trigger] row@[k])@ == if k < i && cell_counts(up[k]) {
                        up[k]
                    } else {
                        before[k]
                    },
            decreases update@.len() - i,
        {
            assert(up[i as int] == update@[i as int]@);
            if !update[i].as_str().is_empty() && !str_eq(update[i].as_str(), "ROW_REMOVED") {
                assert(cell_counts(us[u as int][i as int]));
                row.set(i, update[i].clone());
            }
            i = i + 1;
        }
        proof {
            assert(us.take(u as int + 1).drop_last() =~= us.take(u as int));
            assert(row.deep_view() =~= apply_update(before, up));
        }
        u = u + 1;
    }
    assert(us.take(u as int) =~= us);
    row
}

/// Merging keeps the number and the order of the rows, and a row for which
/// there is no update.
pub proof fn law_merge_keeps_rows(initial: Rows, updates: Rows, i: int)
    requires
        0 <= i < initial.len(),
    ensures
        merged_table(initial, updates).len() == initial.len(),
        initial[i].len() > 0 && last_update(updates, initial[i][0]) is None
            ==> merged_table(initial, updates)[i] == initial[i],
        initial[i].len() > 0 ==> merged_table(initial, updates)[i].len() > 0 && merged_table(
            initial,
            updates,
        )[i][0] == initial[i][0],
{
    if initial[i].len() > 0 {
        lemma_last_update_id(updates, initial[i][0]);
    }
}

proof fn lemma_last_update_id(updates: Rows, id: Text)
    ensures
        last_update(updates, id) matches Some(u) ==> u.len() > 0 && u[0] == id,
    decreases updates.len(),
{
    if updates.len() > 0 {
        lemma_last_update_id(updates.drop_last(), id);
    }
}

/// A later update wins over those before it.
pub proof fn law_later_update_wins(initial: Rows, updates: Rows, update: Row, i: int)
    requires
        0 <= i < initial.len(),
        initial[i].len() > 0,
        update.len() > 0,
        update[0] == initial[i][0],
    ensures
        merged_table(initial, updates.push(update))[i] == update,
{
    assert(updates.push(update).last() == update);
}

/// Whether a line break goes before a new line of a file, given the last byte
/// of the file: where there is one that is no line break itself.
pub fn needs_line_break(last_byte: Option<u8>) -> (r: bool)
    ensures
        r == (last_byte matches Some(b) && b != 10),
{
    match last_byte {
        Some(b) => b != 10,
        None => false,
    }
}

} // verus!
