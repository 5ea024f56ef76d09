//! The course of a recovery over the entries of the log for a table.

use crate::change_logging::change_logging::ChangeType;
use crate::config::database_config;
use crate::config::database_config::{table_file_path, ConfigView, DatabaseConfig};
use crate::json::{Json, JsonView};
use crate::recovery::recovery;
use crate::recovery::recovery::{recovery_action, ActionView, RecoveryAction, RowChange};
use crate::schema::schema::{initial_table_name, updates_table_name};
use crate::string_map::Duplicate;
use crate::text::Text;
use vstd::prelude::*;

verus! {

/// What is done with a change, and with which files.
#[derive(Debug, PartialEq, Eq)]
pub enum EntryAction {
    /// A row goes to a file.
    Row { change: RowChange, path: String },
    /// A table is created.
    Create { initial: String, updates: String },
    /// A table is dropped.
    Drop { initial: String, updates: String },
}

/// An [`EntryAction`] as a mathematical value.
pub enum EntryActionView {
    Row { change: RowChange, path: Text },
    Create { initial: Text, updates: Text },
    Drop { initial: Text, updates: Text },
}

impl DeepView for EntryAction {
    type V = EntryActionView;

    open spec fn deep_view(&self) -> EntryActionView {
        match self {
            EntryAction::Row { change, path } => EntryActionView::Row {
                change: *change,
                path: path@,
            },
            EntryAction::Create { initial, updates } => EntryActionView::Create {
                initial: initial@,
                updates: updates@,
            },
            EntryAction::Drop { initial, updates } => EntryActionView::Drop {
                initial: initial@,
                updates: updates@,
            },
        }
    }
}

/// What is done with a change to a table: a new row goes to the initial rows of
/// the table, an update and a deletion to the updates.
pub open spec fn table_action(config: ConfigView, table: Text, change: ChangeType) -> EntryActionView {
    let initial = database_config::table_file(config, table + "_initial"@);
    let updates = database_config::table_file(config, table + "_updates"@);
    match change {
        ChangeType::Insert => EntryActionView::Row { change: RowChange::Insertion, path: initial },
        ChangeType::Update => EntryActionView::Row { change: RowChange::Update, path: updates },
        ChangeType::Delete => EntryActionView::Row { change: RowChange::Deletion, path: updates },
        ChangeType::Create => EntryActionView::Create { initial, updates },
        ChangeType::Drop => EntryActionView::Drop { initial, updates },
    }
}

/// What is done with a change to a table.
pub fn choose_action(config: &DatabaseConfig, table_name: &str, change: ChangeType) -> (r:
    EntryAction)
    ensures
        r.deep_view() == table_action(config.deep_view(), table_name@, change),
{
    let initial = table_file_path(config, initial_table_name(table_name).as_str());
    let updates = table_file_path(config, updates_table_name(table_name).as_str());
    match change {
        ChangeType::Insert => EntryAction::Row { change: RowChange::Insertion, path: initial },
        ChangeType::Update => EntryAction::Row { change: RowChange::Update, path: updates },
        ChangeType::Delete => EntryAction::Row { change: RowChange::Deletion, path: updates },
        ChangeType::Create => EntryAction::Create { initial, updates },
        ChangeType::Drop => EntryAction::Drop { initial, updates },
    }
}

/// Entries for a table that are being applied one after another.
#[derive(Debug)]
pub struct TableRun {
    config: DatabaseConfig,
    table_name: String,
    logs: Vec<Json>,
    at: usize,
}

/// A [`TableRun`] as a mathematical value.
pub struct TableRunView {
    pub config: ConfigView,
    pub table_name: Text,
    pub logs: Seq<JsonView>,
    /// The entry that is being applied.
    pub at: int,
}

impl DeepView for TableRun {
    type V = TableRunView;

    closed spec fn deep_view(&self) -> TableRunView {
        TableRunView {
            config: self.config.deep_view(),
            table_name: self.table_name@,
            logs: self.logs.deep_view(),
            at: self.at as int,
        }
    }
}

/// What is to be done next.
#[derive(Debug, PartialEq, Eq)]
pub enum RecoveryStep {
    /// The entry at hand is to be applied.
    Apply(EntryAction),
    /// The entry at hand is of a kind that there is not, and is passed over.
    Skip(String),
    /// All entries were applied.
    Finish,
    /// The recovery ends with an error.
    Fail(String),
}

/// A [`RecoveryStep`] as a mathematical value.
pub enum RecoveryStepView {
    Apply(EntryActionView),
    Skip(Text),
    Finish,
    Fail(Text),
}

impl DeepView for RecoveryStep {
    type V = RecoveryStepView;

    open spec fn deep_view(&self) -> RecoveryStepView {
        match self {
            RecoveryStep::Apply(action) => RecoveryStepView::Apply(action.deep_view()),
            RecoveryStep::Skip(kind) => RecoveryStepView::Skip(kind@),
            RecoveryStep::Finish => RecoveryStepView::Finish,
            RecoveryStep::Fail(e) => RecoveryStepView::Fail(e@),
        }
    }
}

/// What is to be done with an entry.
pub open spec fn step_for(config: ConfigView, table: Text, log: JsonView) -> RecoveryStepView {
    match recovery::action_of(log) {
        Err(e) => RecoveryStepView::Fail(e),
        Ok(ActionView::Unknown(kind)) => RecoveryStepView::Skip(kind),
        Ok(ActionView::Create) => RecoveryStepView::Apply(
            table_action(config, table, ChangeType::Create),
        ),
        Ok(ActionView::Insert) => RecoveryStepView::Apply(
            table_action(config, table, ChangeType::Insert),
        ),
        Ok(ActionView::Update) => RecoveryStepView::Apply(
            table_action(config, table, ChangeType::Update),
        ),
        Ok(ActionView::Delete) => RecoveryStepView::Apply(
            table_action(config, table, ChangeType::Delete),
        ),
        Ok(ActionView::Drop) => RecoveryStepView::Apply(
            table_action(config, table, ChangeType::Drop),
        ),
    }
}

/// The run at the entry at position `i`, and what is then to be done.
pub open spec fn turn_to_entry(run: TableRunView, i: int) -> (TableRunView, RecoveryStepView) {
    let next = TableRunView { at: i, ..run };
    if i < run.logs.len() {
        (next, step_for(run.config, run.table_name, run.logs[i]))
    } else {
        (next, RecoveryStepView::Finish)
    }
}

/// What follows an entry: the next one, or the end where there was an error.
pub open spec fn after_entry(run: TableRunView, error: Option<Text>) -> (
    TableRunView,
    RecoveryStepView,
) {
    match error {
        None => turn_to_entry(run, run.at + 1),
        Some(e) => (run, RecoveryStepView::Fail(e)),
    }
}

/// Whether there is an entry at hand.
pub open spec fn has_entry(run: TableRunView) -> bool {
    0 <= run.at < run.logs.len()
}

impl TableRun {
    /// The entries for a table, and what is to be done first.
    pub fn begin(config: &DatabaseConfig, table_name: &str, logs: &Vec<Json>) -> (r: (
        TableRun,
        RecoveryStep,
    ))
        ensures
            (r.0.deep_view(), r.1.deep_view()) == turn_to_entry(
                (TableRunView {
                    config: config.deep_view(),
                    table_name: table_name@,
                    logs: logs.deep_view(),
                    at: 0,
                }),
                0,
            ),
    {
        let run = TableRun {
            config: config.clone(),
            table_name: table_name.to_owned(),
            logs: logs.duplicate(),
            at: 0,
        };
        let step = run.step();
        (run, step)
    }

    fn step(&self) -> (r: RecoveryStep)
        ensures
            (self.deep_view(), r.deep_view()) == turn_to_entry(
                self.deep_view(),
                self.deep_view().at,
            ),
    {
        if self.at < self.logs.len() {
            assert(self.deep_view().logs[self.at as int] == self.logs@[self.at as int].deep_view());
            let table = self.table_name.as_str();
            match recovery_action(&self.logs[self.at]) {
                Err(e) => RecoveryStep::Fail(e),
                Ok(RecoveryAction::Unknown(kind)) => RecoveryStep::Skip(kind),
                Ok(RecoveryAction::Create) => RecoveryStep::Apply(
                    choose_action(&self.config, table, ChangeType::Create),
                ),
                Ok(RecoveryAction::Insert) => RecoveryStep::Apply(
                    choose_action(&self.config, table, ChangeType::Insert),
                ),
                Ok(RecoveryAction::Update) => RecoveryStep::Apply(
                    choose_action(&self.config, table, ChangeType::Update),
                ),
                Ok(RecoveryAction::Delete) => RecoveryStep::Apply(
                    choose_action(&self.config, table, ChangeType::Delete),
                ),
                Ok(RecoveryAction::Drop) => RecoveryStep::Apply(
                    choose_action(&self.config, table, ChangeType::Drop),
                ),
            }
        } else {
            RecoveryStep::Finish
        }
    }

    /// The entry at hand.
    pub fn entry(&self) -> (r: &Json)
        requires
            has_entry(self.deep_view()),
        ensures
            r.deep_view() == self.deep_view().logs[self.deep_view().at],
    {
        &self.logs[self.at]
    }

    /// What is to be done after an entry was applied or passed over, or could
    /// not be applied.
    pub fn proceed(&mut self, error: &Option<String>) -> (r: RecoveryStep)
        requires
            has_entry(old(self).deep_view()),
        ensures
            (final(self).deep_view(), r.deep_view()) == after_entry(
                old(self).deep_view(),
                error.deep_view(),
            ),
    {
        match error {
            None => {
                let n: usize = self.logs.len();
                assert(self.at < n);
                self.at = self.at + 1;
                self.step()
            },
            Some(e) => RecoveryStep::Fail(e.clone()),
        }
    }
}

// ---------------------------------------------------------------------------
// Laws
// ---------------------------------------------------------------------------

/// The first `n` steps of a run from a state and a step on, where `errors`
/// tells what came of each entry.
pub open spec fn recovery_course(
    run: TableRunView,
    step: RecoveryStepView,
    errors: Seq<Option<Text>>,
    n: nat,
) -> Seq<RecoveryStepView>
    decreases n,
{
    if n == 0 {
        Seq::empty()
    } else {
        match step {
            RecoveryStepView::Finish => seq![step],
            RecoveryStepView::Fail(_) => seq![step],
            RecoveryStepView::Skip(_) => {
                let (next, following) = after_entry(run, None);
                seq![step] + recovery_course(next, following, errors, (n - 1) as nat)
            },
            RecoveryStepView::Apply(_) => {
                let (next, following) = after_entry(run, errors[run.at]);
                seq![step] + recovery_course(next, following, errors, (n - 1) as nat)
            },
        }
    }
}

/// The steps for the entries from position `i` up to position `k`.
pub open spec fn steps_between(run: TableRunView, i: int, k: int) -> Seq<RecoveryStepView> {
    run.logs.subrange(i, k).map_values(
        |log: JsonView| step_for(run.config, run.table_name, log),
    )
}

/// Whether the entry at position `k` is handled without an error.
pub open spec fn goes_well(run: TableRunView, errors: Seq<Option<Text>>, k: int) -> bool {
    !(step_for(run.config, run.table_name, run.logs[k]) is Fail) && (step_for(
        run.config,
        run.table_name,
        run.logs[k],
    ) is Apply ==> errors[k] is None)
}

proof fn lemma_steps_between(run: TableRunView, i: int, k: int)
    requires
        0 <= i < k <= run.logs.len(),
    ensures
        steps_between(run, i, k) == seq![step_for(run.config, run.table_name, run.logs[i])]
            + steps_between(run, i + 1, k),
{
    assert(steps_between(run, i, k) =~= seq![step_for(run.config, run.table_name, run.logs[i])]
        + steps_between(run, i + 1, k));
}

/// As long as nothing fails, every entry for a table is handled exactly once
/// and in the order of the log.
pub proof fn law_entries_are_applied_in_order(
    run: TableRunView,
    i: int,
    errors: Seq<Option<Text>>,
    n: nat,
)
    requires
        0 <= i <= run.logs.len() == errors.len(),
        forall|k: int| i <= k < run.logs.len() ==> #[trigger] goes_well(run, errors, k),
        n > run.logs.len() - i,
    ensures
        recovery_course(turn_to_entry(run, i).0, turn_to_entry(run, i).1, errors, n)
            == steps_between(run, i, run.logs.len() as int).push(RecoveryStepView::Finish),
    decreases run.logs.len() - i,
{
    let (now, step) = turn_to_entry(run, i);
    let end = run.logs.len() as int;
    let last = RecoveryStepView::Finish;
    if i < run.logs.len() {
        assert(goes_well(run, errors, i));
        assert(turn_to_entry(now, i + 1) == turn_to_entry(run, i + 1));
        law_entries_are_applied_in_order(run, i + 1, errors, (n - 1) as nat);
        lemma_steps_between(run, i, end);
        assert(seq![step] + steps_between(run, i + 1, end).push(last) =~= (seq![step]
            + steps_between(run, i + 1, end)).push(last));
    } else {
        assert(steps_between(run, i, end) =~= Seq::empty());
        assert(Seq::empty().push(last) =~= seq![last]);
    }
}

/// The first entry that cannot be applied ends the recovery of a table with its
/// error: the entries before it were handled in order, and no later one is.
pub proof fn law_first_error_ends_recovery(
    run: TableRunView,
    i: int,
    k: int,
    e: Text,
    errors: Seq<Option<Text>>,
    n: nat,
)
    requires
        0 <= i <= k < run.logs.len() == errors.len(),
        forall|j: int| i <= j < k ==> #[trigger] goes_well(run, errors, j),
        step_for(run.config, run.table_name, run.logs[k]) is Apply,
        errors[k] == Some(e),
        n > k + 1 - i,
    ensures
        recovery_course(turn_to_entry(run, i).0, turn_to_entry(run, i).1, errors, n)
            == steps_between(run, i, k + 1).push(RecoveryStepView::Fail(e)),
    decreases k - i,
{
    let (now, step) = turn_to_entry(run, i);
    let last = RecoveryStepView::Fail(e);
    lemma_steps_between(run, i, k + 1);
    if i < k {
        assert(goes_well(run, errors, i));
        assert(turn_to_entry(now, i + 1) == turn_to_entry(run, i + 1));
        law_first_error_ends_recovery(run, i + 1, k, e, errors, (n - 1) as nat);
        assert(seq![step] + steps_between(run, i + 1, k + 1).push(last) =~= (seq![step]
            + steps_between(run, i + 1, k + 1)).push(last));
    } else {
        let (next, following) = after_entry(now, errors[i]);
        assert(recovery_course(next, following, errors, (n - 1) as nat) == seq![last]);
        assert(steps_between(run, i + 1, k + 1) =~= Seq::empty());
        assert(seq![step] + seq![last] =~= (seq![step] + Seq::<RecoveryStepView>::empty()).push(
            last,
        ));
    }
}

} // verus!
