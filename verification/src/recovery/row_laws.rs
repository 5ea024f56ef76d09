//! What recovery makes of the rows that the log tells of.

use crate::json;
use crate::json::JsonView;
use crate::outside;
use crate::records::rows;
use crate::records::rows::Row;
use crate::recovery::recovery;
use crate::recovery::recovery::RowChange;
use crate::text;
use crate::text::{Strip, Text};
use vstd::prelude::*;

verus! {

/// Whether an entry of the log tells of a row with the given cells: the texts in
/// its row, and the empty text for what is no text. The first and the last are
/// texts.
pub open spec fn tells_of_row(log: JsonView, cells: Row) -> bool {
    &&& json::get(log, "data"@) matches Some(data)
    &&& json::get(data, "row_data"@) matches Some(JsonView::Array(values))
    &&& values.len() == cells.len()
    &&& values.len() > 0 ==> values[0] is Str && values.last() is Str
    &&& forall|i: int|
        0 <= i < cells.len() ==> #[trigger] cells[i] == match values[i] {
            JsonView::Str(t) => t,
            _ => Seq::empty(),
        }
}

/// Whether the first piece of a line, between commas and without white space
/// around it, is the given text.
pub open spec fn begins_with(line: Text, first: Text) -> bool {
    text::trimmed(text::split(line, ',')[0], Strip::Space) == first
}

/// Whether a line has at least two pieces, and the last of them, without white
/// space around it, is the given text.
pub open spec fn ends_with(line: Text, last: Text) -> bool {
    text::split(line, ',').len() >= 2 && text::trimmed(text::split(line, ',').last(), Strip::Space)
        == last
}

/// What a deletion writes for a cell: 0 for an empty one, the mark of a removed
/// row in upper case, and anything else as it is.
pub open spec fn removed_cell(cell: Text) -> Text {
    if cell.len() == 0 {
        "0"@
    } else if outside::uppercase(cell) == "ROW_REMOVED"@ && cell != "0"@ {
        "ROW_REMOVED"@
    } else {
        cell
    }
}

proof fn lemma_told(log: JsonView, cells: Row)
    requires
        tells_of_row(log, cells),
        cells.len() > 0,
    ensures
        recovery::entry_row(log) is Some,
        recovery::first_text(recovery::entry_row(log)->0) == Some(cells[0]),
        recovery::last_text(recovery::entry_row(log)->0) == Some(cells.last()),
        recovery::entry_cells(recovery::entry_row(log)->0, false) == cells,
        recovery::entry_cells(recovery::entry_row(log)->0, true) == cells.map_values(
            |cell: Text| removed_cell(cell),
        ),
{
    let values = recovery::entry_row(log)->0;
    assert(values[0] == JsonView::Str(cells[0]));
    assert(values.last() == JsonView::Str(cells[cells.len() - 1]));
    assert(recovery::entry_cells(values, false) =~= cells);
    assert(recovery::entry_cells(values, true) =~= cells.map_values(
        |cell: Text| removed_cell(cell),
    ));
}

/// A logged insertion is written where no line of the file begins with its UUID,
/// and only there: what is written are the cells of its row with commas between
/// them.
pub proof fn law_insertion_is_recovered_where_missing(
    log: JsonView,
    cells: Row,
    lines: Seq<Text>,
)
    requires
        tells_of_row(log, cells),
        cells.len() > 0,
    ensures
        (forall|i: int| 0 <= i < lines.len() ==> !begins_with(#[trigger] lines[i], cells[0]))
            ==> recovery::line_to_append(RowChange::Insertion, log, lines) == Ok::<_, Text>(
            Some(text::join(cells, ","@)),
        ),
        (exists|i: int| 0 <= i < lines.len() && begins_with(#[trigger] lines[i], cells[0]))
            ==> recovery::line_to_append(RowChange::Insertion, log, lines) == Ok::<
            Option<Text>,
            Text,
        >(None),
{
    lemma_told(log, cells);
    assert forall|i: int| 0 <= i < lines.len() implies recovery::line_says(
        RowChange::Insertion,
        #[trigger] lines[i],
        cells[0],
        Seq::empty(),
    ) == begins_with(lines[i], cells[0]) by {}
}

/// A logged update is written where no line of the file begins with its UUID and
/// ends with its time, and only there.
pub proof fn law_update_is_recovered_where_missing(log: JsonView, cells: Row, lines: Seq<Text>)
    requires
        tells_of_row(log, cells),
        cells.len() > 0,
    ensures
        (forall|i: int|
            0 <= i < lines.len() ==> !(begins_with(#[trigger] lines[i], cells[0]) && ends_with(
                lines[i],
                cells.last(),
            ))) ==> recovery::line_to_append(RowChange::Update, log, lines) == Ok::<_, Text>(
            Some(text::join(cells, ","@)),
        ),
        (exists|i: int|
            0 <= i < lines.len() && begins_with(#[trigger] lines[i], cells[0]) && ends_with(
                lines[i],
                cells.last(),
            )) ==> recovery::line_to_append(RowChange::Update, log, lines) == Ok::<
            Option<Text>,
            Text,
        >(None),
{
    lemma_told(log, cells);
    assert forall|i: int| 0 <= i < lines.len() implies recovery::line_says(
        RowChange::Update,
        #[trigger] lines[i],
        cells[0],
        cells.last(),
    ) == (begins_with(lines[i], cells[0]) && ends_with(lines[i], cells.last())) by {
        let pieces = text::split(lines[i], ',');
        assert(pieces.len() > 0 ==> pieces.last() == pieces[pieces.len() - 1]);
    }
}

/// A logged deletion is written where no line of the file begins with its UUID
/// and ends with its time, and only there: an empty cell as 0, the mark of a
/// removed row in upper case, and any other cell as it is.
pub proof fn law_deletion_is_recovered_where_missing(
    log: JsonView,
    cells: Row,
    lines: Seq<Text>,
)
    requires
        tells_of_row(log, cells),
        cells.len() > 0,
    ensures
        (forall|i: int|
            0 <= i < lines.len() ==> !(begins_with(#[trigger] lines[i], cells[0]) && ends_with(
                lines[i],
                cells.last(),
            ))) ==> recovery::line_to_append(RowChange::Deletion, log, lines) == Ok::<_, Text>(
            Some(text::join(cells.map_values(|cell: Text| removed_cell(cell)), ","@)),
        ),
        (exists|i: int|
            0 <= i < lines.len() && begins_with(#[trigger] lines[i], cells[0]) && ends_with(
                lines[i],
                cells.last(),
            )) ==> recovery::line_to_append(RowChange::Deletion, log, lines) == Ok::<
            Option<Text>,
            Text,
        >(None),
{
    lemma_told(log, cells);
    assert forall|i: int| 0 <= i < lines.len() implies recovery::line_says(
        RowChange::Deletion,
        #[trigger] lines[i],
        cells[0],
        cells.last(),
    ) == (begins_with(lines[i], cells[0]) && ends_with(lines[i], cells.last())) by {
        let pieces = text::split(lines[i], ',');
        assert(pieces.len() > 0 ==> pieces.last() == pieces[pieces.len() - 1]);
    }
}

/// An entry without a row, without a text for its UUID, or, where the time
/// counts, without a text for it, is an error and writes nothing.
pub proof fn law_incomplete_entry_is_an_error(
    change: RowChange,
    log: JsonView,
    lines: Seq<Text>,
)
    requires
        match json::get(log, "data"@) {
            None => true,
            Some(data) => match json::get(data, "row_data"@) {
                Some(JsonView::Array(values)) => {
                    ||| values.len() == 0
                    ||| !(values[0] is Str)
                    ||| !(change is Insertion) && !(values.last() is Str)
                },
                _ => true,
            },
        },
    ensures
        recovery::line_to_append(change, log, lines) is Err,
{
}

/// The lines of a file after the first `n` entries of a log were applied to it.
pub open spec fn lines_after(
    change: RowChange,
    logs: Seq<JsonView>,
    lines: Seq<Text>,
    n: int,
) -> Seq<Text>
    decreases n,
{
    if n <= 0 {
        lines
    } else {
        let before = lines_after(change, logs, lines, n - 1);
        match recovery::line_to_append(change, logs[n - 1], before) {
            Ok(Some(line)) => before.push(line),
            _ => before,
        }
    }
}

proof fn lemma_begins(cells: Row)
    requires
        cells.len() > 0,
        rows::plain_cell(cells[0]),
    ensures
        begins_with(text::join(cells, ","@), cells[0]),
{
    reveal_strlit(",");
    assert(","@ =~= seq![',']);
    recovery::lemma_join_begins(cells, ',');
    let rest = choose|rest: Text|
        (rest.len() == 0 || rest[0] == ',') && text::join(cells, seq![',']) == #[trigger] (cells[0]
            + rest);
    text::lemma_split_first(cells[0], rest, ',');
}

proof fn lemma_ends(cells: Row)
    requires
        cells.len() >= 2,
        rows::plain_cell(cells.last()),
    ensures
        ends_with(text::join(cells, ","@), cells.last()),
{
    reveal_strlit(",");
    assert(","@ =~= seq![',']);
    text::lemma_split_last(text::join(cells.drop_last(), seq![',']), cells.last(), ',');
}

/// Recovering an empty file from logged insertions with different UUIDs gives a
/// line for each of them, in the order of the log.
pub proof fn law_all_insertions_are_recovered(logs: Seq<JsonView>, table_rows: Seq<Row>, n: int)
    requires
        logs.len() == table_rows.len(),
        0 <= n <= logs.len(),
        forall|i: int|
            0 <= i < logs.len() ==> tells_of_row(#[trigger] logs[i], table_rows[i])
                && table_rows[i].len() > 0 && rows::plain_cell(table_rows[i][0]),
        forall|i: int, j: int|
            0 <= i < j < logs.len() ==> (#[trigger] table_rows[i])[0] != (
            #[trigger] table_rows[j])[0],
    ensures
        lines_after(RowChange::Insertion, logs, Seq::empty(), n) == table_rows.take(n).map_values(
            |cells: Row| text::join(cells, ","@),
        ),
    decreases n,
{
    let f = |cells: Row| text::join(cells, ","@);
    if n == 0 {
        assert(table_rows.take(0).map_values(f) =~= Seq::empty());
    } else {
        law_all_insertions_are_recovered(logs, table_rows, n - 1);
        let before = table_rows.take(n - 1).map_values(f);
        let cells = table_rows[n - 1];
        assert(tells_of_row(logs[n - 1], cells));
        assert forall|i: int| 0 <= i < before.len() implies !begins_with(
            #[trigger] before[i],
            cells[0],
        ) by {
            assert(tells_of_row(logs[i], table_rows[i]));
            lemma_begins(table_rows[i]);
            assert(table_rows[i][0] != table_rows[n - 1][0]);
        }
        law_insertion_is_recovered_where_missing(logs[n - 1], cells, before);
        assert(before.push(f(cells)) =~= table_rows.take(n).map_values(f));
    }
}

/// Recovering an empty file from logged updates, no two of which are of one row
/// at one time, gives a line for each of them, in the order of the log.
pub proof fn law_all_updates_are_recovered(logs: Seq<JsonView>, table_rows: Seq<Row>, n: int)
    requires
        logs.len() == table_rows.len(),
        0 <= n <= logs.len(),
        forall|i: int|
            0 <= i < logs.len() ==> tells_of_row(#[trigger] logs[i], table_rows[i])
                && table_rows[i].len() >= 2 && rows::plain_cell(table_rows[i][0])
                && rows::plain_cell(table_rows[i].last()),
        forall|i: int, j: int|
            0 <= i < j < logs.len() ==> (#[trigger] table_rows[i])[0] != (
            #[trigger] table_rows[j])[0] || table_rows[i].last() != table_rows[j].last(),
    ensures
        lines_after(RowChange::Update, logs, Seq::empty(), n) == table_rows.take(n).map_values(
            |cells: Row| text::join(cells, ","@),
        ),
    decreases n,
{
    let f = |cells: Row| text::join(cells, ","@);
    if n == 0 {
        assert(table_rows.take(0).map_values(f) =~= Seq::empty());
    } else {
        law_all_updates_are_recovered(logs, table_rows, n - 1);
        let before = table_rows.take(n - 1).map_values(f);
        let cells = table_rows[n - 1];
        assert(tells_of_row(logs[n - 1], cells));
        assert forall|i: int| 0 <= i < before.len() implies !(begins_with(
            #[trigger] before[i],
            cells[0],
        ) && ends_with(before[i], cells.last())) by {
            assert(tells_of_row(logs[i], table_rows[i]));
            lemma_begins(table_rows[i]);
            lemma_ends(table_rows[i]);
            assert(table_rows[i][0] != table_rows[n - 1][0] || table_rows[i].last()
                != table_rows[n - 1].last());
        }
        law_update_is_recovered_where_missing(logs[n - 1], cells, before);
        assert(before.push(f(cells)) =~= table_rows.take(n).map_values(f));
    }
}

} // verus!
