//! The course of an `UPDATE` or a `DELETE` over the rows that it is about.

use crate::errors;
use crate::errors::{DbError, ErrorView};
use crate::executer::replies;
use crate::executer::replies::{
    deleted_reply, failure_reply, find_rows_concerned, updated_reply, Change,
};
use crate::json;
use crate::json::{Reply, ReplyView};
use crate::numbers;
use crate::query::parser::Expression;
use crate::records::rows::Rows;
use crate::schema::schema::Schema;
use crate::text::Text;
use vstd::prelude::*;

verus! {

/// What is done to the rows.
#[derive(Clone, Copy, PartialEq, Eq, Debug, Structural)]
pub enum RowsChange {
    Update,
    Delete,
}

/// Rows that are being changed one after another.
#[derive(Debug)]
pub struct RowsRun {
    change: RowsChange,
    ids: Vec<String>,
    count: usize,
    at: usize,
    recalculating: bool,
}

/// A [`RowsRun`] as a mathematical value.
pub struct RowsRunView {
    pub change: RowsChange,
    /// The identifiers of the rows.
    pub ids: Seq<Text>,
    /// How many rows there are.
    pub count: nat,
    /// The row that is being changed.
    pub at: int,
    /// Whether all rows were changed and the table is being computed anew.
    pub recalculating: bool,
}

impl DeepView for RowsRun {
    type V = RowsRunView;

    closed spec fn deep_view(&self) -> RowsRunView {
        RowsRunView {
            change: self.change,
            ids: self.ids.deep_view(),
            count: self.count as nat,
            at: self.at as int,
            recalculating: self.recalculating,
        }
    }
}

/// What is to be done next.
#[derive(Debug, PartialEq, Eq)]
pub enum RowsAction {
    /// The row with an identifier is to be changed.
    Change(String),
    /// The table is to be computed anew.
    Recalculate,
    /// The query is answered.
    Finish(Reply),
}

/// A [`RowsAction`] as a mathematical value.
pub enum RowsActionView {
    Change(Text),
    Recalculate,
    Finish(ReplyView),
}

impl DeepView for RowsAction {
    type V = RowsActionView;

    open spec fn deep_view(&self) -> RowsActionView {
        match self {
            RowsAction::Change(id) => RowsActionView::Change(id@),
            RowsAction::Recalculate => RowsActionView::Recalculate,
            RowsAction::Finish(reply) => RowsActionView::Finish(reply.deep_view()),
        }
    }
}

/// The identifiers of rows, which are their first cells.
pub open spec fn row_ids(rows: Rows) -> Seq<Text>
    decreases rows.len(),
{
    if rows.len() == 0 {
        Seq::empty()
    } else if rows.last().len() == 0 {
        row_ids(rows.drop_last())
    } else {
        row_ids(rows.drop_last()).push(rows.last()[0])
    }
}

fn ids_of(rows: &Vec<Vec<String>>) -> (r: Vec<String>)
    ensures
        r.deep_view() == row_ids(rows.deep_view()),
{
    let ghost rs = rows.deep_view();
    let mut r: Vec<String> = Vec::new();
    let mut i: usize = 0;
    assert(rs.take(0) =~= Seq::empty());
    assert(r.deep_view() =~= Seq::<Text>::empty());
    while i < rows.len()
        invariant
            i <= rows@.len(),
            rs == rows.deep_view(),
            r.deep_view() == row_ids(rs.take(i as int)),
        decreases rows@.len() - i,
    {
        let ghost before = r.deep_view();
        assert(rs.take(i as int + 1).drop_last() =~= rs.take(i as int));
        assert(rs.take(i as int + 1).last() == rows@[i as int].deep_view());
        if rows[i].len() > 0 {
            r.push(rows[i][0].clone());
            assert(r.deep_view() =~= before.push(rs[i as int][0]));
        }
        i = i + 1;
    }
    assert(rs.take(i as int) =~= rs);
    r
}

/// A run before its first row.
pub open spec fn new_rows_run(change: RowsChange, rows: Rows) -> RowsRunView {
    RowsRunView { change, ids: row_ids(rows), count: rows.len(), at: 0, recalculating: false }
}

/// The reply when all rows were changed.
pub open spec fn changed_reply(run: RowsRunView) -> ReplyView {
    match run.change {
        RowsChange::Update => json::message_reply(200, "Rows updated"@),
        RowsChange::Delete => json::message_reply(
            200,
            "Deleted "@ + numbers::decimal(run.count) + " rows"@,
        ),
    }
}

/// The run at the row at position `i`, and what is then to be done: after the
/// last row of an `UPDATE` the table is computed anew.
pub open spec fn turn_to_row(run: RowsRunView, i: int) -> (RowsRunView, RowsActionView) {
    if i < run.ids.len() {
        (RowsRunView { at: i, ..run }, RowsActionView::Change(run.ids[i]))
    } else if run.change == RowsChange::Update {
        (RowsRunView { at: i, recalculating: true, ..run }, RowsActionView::Recalculate)
    } else {
        (RowsRunView { at: i, ..run }, RowsActionView::Finish(changed_reply(run)))
    }
}

/// The reply when a row could not be changed.
pub open spec fn unchanged_reply(change: RowsChange, e: ErrorView) -> ReplyView {
    match change {
        RowsChange::Update => replies::failure(Change::Update, e),
        RowsChange::Delete => replies::failure(Change::Delete, e),
    }
}

/// What follows the change of a row: the next row, or the reply where there was
/// an error.
pub open spec fn after_row(run: RowsRunView, error: Option<ErrorView>) -> (
    RowsRunView,
    RowsActionView,
) {
    match error {
        None => turn_to_row(run, run.at + 1),
        Some(e) => (run, RowsActionView::Finish(unchanged_reply(run.change, e))),
    }
}

/// The reply once the table was computed anew, or could not be.
pub open spec fn after_recalculation(run: RowsRunView, error: Option<ErrorView>) -> ReplyView {
    match error {
        None => changed_reply(run),
        Some(e) => replies::failure(Change::Recalculate, e),
    }
}

/// Whether a row is being changed.
pub open spec fn at_a_row(run: RowsRunView) -> bool {
    0 <= run.at < run.ids.len() && !run.recalculating
}

impl RowsRun {
    /// The run over the rows of a table that meet a condition, or the reply
    /// where there are none.
    pub fn plan(
        change: RowsChange,
        schema: &Schema,
        table_name: &str,
        initial: &Result<Vec<Vec<String>>, DbError>,
        condition: &Expression,
    ) -> (r: Result<Self, Reply>)
        ensures
            match replies::rows_concerned(
                schema.deep_view(),
                table_name@,
                errors::result_view(*initial),
                condition.deep_view(),
            ) {
                Ok(rows) => r matches Ok(run) && run.deep_view() == new_rows_run(change, rows),
                Err(reply) => r matches Err(e) && e.deep_view() == reply,
            },
    {
        match find_rows_concerned(schema, table_name, initial, condition) {
            Ok(rows) => Ok(
                RowsRun {
                    change,
                    ids: ids_of(&rows),
                    count: rows.len(),
                    at: 0,
                    recalculating: false,
                },
            ),
            Err(reply) => Err(reply),
        }
    }

    fn turn_to(&mut self, i: usize) -> (r: RowsAction)
        ensures
            (final(self).deep_view(), r.deep_view()) == turn_to_row(
                old(self).deep_view(),
                i as int,
            ),
    {
        self.at = i;
        if i < self.ids.len() {
            assert(self.deep_view().ids[i as int] == self.ids@[i as int]@);
            RowsAction::Change(self.ids[i].clone())
        } else {
            match self.change {
                RowsChange::Update => {
                    self.recalculating = true;
                    RowsAction::Recalculate
                },
                RowsChange::Delete => RowsAction::Finish(deleted_reply(self.count as u64)),
            }
        }
    }

    /// What is to be done first.
    pub fn begin(&mut self) -> (r: RowsAction)
        ensures
            (final(self).deep_view(), r.deep_view()) == turn_to_row(old(self).deep_view(), 0),
    {
        self.turn_to(0)
    }

    /// What is to be done after a row was changed, or could not be.
    pub fn changed(&mut self, error: &Option<DbError>) -> (r: RowsAction)
        requires
            at_a_row(old(self).deep_view()),
        ensures
            (final(self).deep_view(), r.deep_view()) == after_row(
                old(self).deep_view(),
                error.deep_view(),
            ),
    {
        match error {
            None => {
                let n: usize = self.ids.len();
                assert(self.at < n);
                self.turn_to(self.at + 1)
            },
            Some(e) => match self.change {
                RowsChange::Update => RowsAction::Finish(failure_reply(Change::Update, e)),
                RowsChange::Delete => RowsAction::Finish(failure_reply(Change::Delete, e)),
            },
        }
    }

    /// The reply once the table was computed anew, or could not be.
    pub fn recalculated(&self, error: &Option<DbError>) -> (r: Reply)
        requires
            self.deep_view().change == RowsChange::Update,
        ensures
            r.deep_view() == after_recalculation(self.deep_view(), error.deep_view()),
    {
        match error {
            None => updated_reply(),
            Some(e) => failure_reply(Change::Recalculate, e),
        }
    }
}

// ---------------------------------------------------------------------------
// Laws
// ---------------------------------------------------------------------------

/// The first `n` actions of a run from a state and an action on, where
/// `results` tells what came of each row and `end` what came of the computation
/// of the table.
pub open spec fn rows_course(
    run: RowsRunView,
    action: RowsActionView,
    results: Seq<Option<ErrorView>>,
    end: Option<ErrorView>,
    n: nat,
) -> Seq<RowsActionView>
    decreases n,
{
    if n == 0 {
        Seq::empty()
    } else {
        match action {
            RowsActionView::Finish(_) => seq![action],
            RowsActionView::Recalculate => seq![
                action,
                RowsActionView::Finish(after_recalculation(run, end)),
            ],
            RowsActionView::Change(_) => {
                let (next, following) = after_row(run, results[run.at]);
                seq![action] + rows_course(next, following, results, end, (n - 1) as nat)
            },
        }
    }
}

/// The changes of the rows from position `i` up to position `k`.
pub open spec fn changes_between(ids: Seq<Text>, i: int, k: int) -> Seq<RowsActionView> {
    ids.subrange(i, k).map_values(|id: Text| RowsActionView::Change(id))
}

proof fn lemma_changes_between(ids: Seq<Text>, i: int, k: int)
    requires
        0 <= i < k <= ids.len(),
    ensures
        changes_between(ids, i, k) == seq![RowsActionView::Change(ids[i])] + changes_between(
            ids,
            i + 1,
            k,
        ),
{
    assert(changes_between(ids, i, k) =~= seq![RowsActionView::Change(ids[i])]
        + changes_between(ids, i + 1, k));
}

/// As long as nothing fails, every row is changed exactly once and in order,
/// the table is computed anew after an `UPDATE`, and the reply is that of
/// success.
pub proof fn law_every_row_is_changed(
    run: RowsRunView,
    i: int,
    results: Seq<Option<ErrorView>>,
    n: nat,
)
    requires
        0 <= i <= run.ids.len() == results.len(),
        forall|k: int| i <= k < results.len() ==> (#[trigger] results[k]) is None,
        n > run.ids.len() - i,
    ensures
        rows_course(turn_to_row(run, i).0, turn_to_row(run, i).1, results, None, n)
            == changes_between(run.ids, i, run.ids.len() as int) + match run.change {
            RowsChange::Update => seq![
                RowsActionView::Recalculate,
                RowsActionView::Finish(changed_reply(run)),
            ],
            RowsChange::Delete => seq![RowsActionView::Finish(changed_reply(run))],
        },
    decreases run.ids.len() - i,
{
    let (now, action) = turn_to_row(run, i);
    let last = match run.change {
        RowsChange::Update => seq![
            RowsActionView::Recalculate,
            RowsActionView::Finish(changed_reply(run)),
        ],
        RowsChange::Delete => seq![RowsActionView::Finish(changed_reply(run))],
    };
    if i < run.ids.len() {
        assert(results[i] is None);
        assert(turn_to_row(now, i + 1) == turn_to_row(run, i + 1));
        law_every_row_is_changed(run, i + 1, results, (n - 1) as nat);
        lemma_changes_between(run.ids, i, run.ids.len() as int);
        assert(seq![action] + (changes_between(run.ids, i + 1, run.ids.len() as int) + last)
            =~= (seq![action] + changes_between(run.ids, i + 1, run.ids.len() as int)) + last);
    } else {
        assert(changes_between(run.ids, i, run.ids.len() as int) =~= Seq::empty());
        assert(Seq::<RowsActionView>::empty() + last =~= last);
    }
}

/// The first row that cannot be changed ends the run: the rows before it were
/// changed in order, no later row is, and the reply tells the error.
pub proof fn law_first_failure_ends_the_run(
    run: RowsRunView,
    i: int,
    k: int,
    e: ErrorView,
    results: Seq<Option<ErrorView>>,
    end: Option<ErrorView>,
    n: nat,
)
    requires
        0 <= i <= k < run.ids.len() == results.len(),
        forall|j: int| i <= j < k ==> (#[trigger] results[j]) is None,
        results[k] == Some(e),
        n > k + 1 - i,
    ensures
        rows_course(turn_to_row(run, i).0, turn_to_row(run, i).1, results, end, n)
            == changes_between(run.ids, i, k + 1).push(
            RowsActionView::Finish(unchanged_reply(run.change, e)),
        ),
    decreases k - i,
{
    let (now, action) = turn_to_row(run, i);
    let last = RowsActionView::Finish(unchanged_reply(run.change, e));
    lemma_changes_between(run.ids, i, k + 1);
    if i < k {
        assert(results[i] is None);
        assert(turn_to_row(now, i + 1) == turn_to_row(run, i + 1));
        law_first_failure_ends_the_run(run, i + 1, k, e, results, end, (n - 1) as nat);
        assert(seq![action] + changes_between(run.ids, i + 1, k + 1).push(last) =~= (seq![action]
            + changes_between(run.ids, i + 1, k + 1)).push(last));
    } else {
        let (next, following) = after_row(now, results[i]);
        assert(rows_course(next, following, results, end, (n - 1) as nat) == seq![last]);
        assert(changes_between(run.ids, i + 1, k + 1) =~= Seq::empty());
        assert(seq![action] + seq![last] =~= (seq![action] + Seq::<RowsActionView>::empty()).push(
            last,
        ));
    }
}

} // verus!
