//! What reading a table at a past time gives.

use crate::errors::ErrorView;
use crate::outside;
use crate::outside::Instant;
use crate::records::laws;
use crate::records::rows;
use crate::records::rows::{Row, Rows};
use crate::records::table;
use crate::records::table::FilesView;
use crate::text;
use crate::text::{Strip, Text};
use vstd::prelude::*;

verus! {

/// Whether a cell has the look of a date and time: a hyphen and a colon in it.
pub open spec fn has_time_marks(cell: Text) -> bool {
    cell.contains('-') && cell.contains(':')
}

/// Whether a row carries a time that is not after `target`: the first of its
/// cells with the look of a date and time is one, and it is not later.
pub open spec fn was_there(row: Row, target: Instant) -> bool {
    exists|k: int|
        #![trigger row[k]]
        {
            &&& 0 <= k < row.len()
            &&& has_time_marks(row[k])
            &&& forall|i: int| 0 <= i < k ==> !has_time_marks(#[trigger] row[i])
            &&& outside::datetime_of(
                text::trimmed(row[k], Strip::Quote),
                "%Y-%m-%d %H:%M:%S"@,
            ) matches Some(t)
            &&& t.0 < target.0 || (t.0 == target.0 && t.1 <= target.1)
        }
}

proof fn lemma_one_char(s: Text, t: Text, c: char)
    requires
        t == seq![c],
    ensures
        text::contains_text(s, t) == s.contains(c),
{
    if s.contains(c) {
        let i = choose|i: int| 0 <= i < s.len() && s[i] == c;
        assert(s.subrange(i, i + 1) =~= t);
        assert(text::occurs_at(s, t, i));
    }
    if text::contains_text(s, t) {
        let i = choose|i: int| text::occurs_at(s, t, i);
        assert(s.subrange(i, i + 1)[0] == s[i]);
        assert(s[i] == c);
    }
}

proof fn lemma_looks_like_time(cell: Text)
    ensures
        rows::looks_like_time(cell) == has_time_marks(cell),
{
    reveal_strlit("-");
    reveal_strlit(":");
    assert("-"@ =~= seq!['-']);
    assert(":"@ =~= seq![':']);
    lemma_one_char(cell, "-"@, '-');
    lemma_one_char(cell, ":"@, ':');
}

/// The time that a row carries is that of the first of its cells that holds a
/// hyphen and a colon; double quotes around it do not count.
pub proof fn law_row_carries_its_first_time(row: Row)
    ensures
        match rows::time_of(row) {
            Some(t) => exists|k: int|
                #![trigger row[k]]
                0 <= k < row.len() && has_time_marks(row[k]) && (forall|i: int|
                    0 <= i < k ==> !has_time_marks(#[trigger] row[i])) && outside::datetime_of(
                    text::trimmed(row[k], Strip::Quote),
                    "%Y-%m-%d %H:%M:%S"@,
                ) == Some(t),
            None => forall|k: int|
                0 <= k < row.len() && has_time_marks(#[trigger] row[k]) && (forall|i: int|
                    0 <= i < k ==> !has_time_marks(#[trigger] row[i])) ==> outside::datetime_of(
                    text::trimmed(row[k], Strip::Quote),
                    "%Y-%m-%d %H:%M:%S"@,
                ) is None,
        },
    decreases row.len(),
{
    if row.len() > 0 {
        lemma_looks_like_time(row[0]);
        if !has_time_marks(row[0]) {
            let rest = row.skip(1);
            law_row_carries_its_first_time(rest);
            assert(rows::time_of(row) == rows::time_of(rest));
            match rows::time_of(rest) {
                Some(t) => {
                    let k = choose|k: int|
                        #![trigger rest[k]]
                        0 <= k < rest.len() && has_time_marks(rest[k]) && (forall|i: int|
                            0 <= i < k ==> !has_time_marks(#[trigger] rest[i]))
                            && outside::datetime_of(
                            text::trimmed(rest[k], Strip::Quote),
                            "%Y-%m-%d %H:%M:%S"@,
                        ) == Some(t);
                    assert(row[k + 1] == rest[k]);
                    assert forall|i: int| 0 <= i < k + 1 implies !has_time_marks(
                        #[trigger] row[i],
                    ) by {
                        if i > 0 {
                            assert(rest[i - 1] == row[i]);
                        }
                    }
                },
                None => {
                    assert forall|k: int|
                        0 <= k < row.len() && has_time_marks(#[trigger] row[k]) && (forall|i: int|
                            0 <= i < k ==> !has_time_marks(
                                #[trigger] row[i],
                            )) implies outside::datetime_of(
                        text::trimmed(row[k], Strip::Quote),
                        "%Y-%m-%d %H:%M:%S"@,
                    ) is None by {
                        assert(rest[k - 1] == row[k]);
                        assert forall|i: int| 0 <= i < k - 1 implies !has_time_marks(
                            #[trigger] rest[i],
                        ) by {
                            assert(rest[i] == row[i + 1]);
                        }
                    }
                },
            }
        } else {
            assert forall|k: int|
                0 <= k < row.len() && has_time_marks(#[trigger] row[k]) && (forall|i: int|
                    0 <= i < k ==> !has_time_marks(#[trigger] row[i])) implies k == 0 by {
                if k > 0 {
                    assert(!has_time_marks(row[0]));
                }
            }
        }
    }
}

proof fn lemma_was_there(row: Row, target: Instant)
    ensures
        rows::not_after(row, target) == was_there(row, target),
{
    law_row_carries_its_first_time(row);
    match rows::time_of(row) {
        Some(t) => {
            let k = choose|k: int|
                #![trigger row[k]]
                0 <= k < row.len() && has_time_marks(row[k]) && (forall|i: int|
                    0 <= i < k ==> !has_time_marks(#[trigger] row[i])) && outside::datetime_of(
                    text::trimmed(row[k], Strip::Quote),
                    "%Y-%m-%d %H:%M:%S"@,
                ) == Some(t);
            if was_there(row, target) {
                let j = choose|j: int|
                    #![trigger row[j]]
                    {
                        &&& 0 <= j < row.len()
                        &&& has_time_marks(row[j])
                        &&& forall|i: int| 0 <= i < j ==> !has_time_marks(#[trigger] row[i])
                        &&& outside::datetime_of(
                            text::trimmed(row[j], Strip::Quote),
                            "%Y-%m-%d %H:%M:%S"@,
                        ) matches Some(t)
                        &&& t.0 < target.0 || (t.0 == target.0 && t.1 <= target.1)
                    };
                if j < k {
                    assert(!has_time_marks(row[j]));
                } else if k < j {
                    assert(!has_time_marks(row[k]));
                }
            }
        },
        None => {},
    }
}

proof fn lemma_rows_until(all: Rows, target: Instant)
    ensures
        table::rows_until(all, target) == all.filter(|row: Row| was_there(row, target)),
    decreases all.len(),
{
    reveal(Seq::filter);
    if all.len() > 0 {
        lemma_rows_until(all.drop_last(), target);
        lemma_was_there(all.last(), target);
    }
}

proof fn lemma_last_update_is(updates: Rows, id: Text, u: int)
    requires
        0 <= u < updates.len(),
        updates[u].len() > 0,
        updates[u][0] == id,
        forall|v: int|
            u < v < updates.len() && (#[trigger] updates[v]).len() > 0 ==> updates[v][0] != id,
    ensures
        rows::last_update(updates, id) == Some(updates[u]),
    decreases updates.len(),
{
    if u < updates.len() - 1 {
        let d = updates.drop_last();
        assert(updates[updates.len() - 1] == updates.last());
        assert(forall|v: int| 0 <= v < d.len() ==> d[v] == updates[v]);
        lemma_last_update_is(d, id, u);
    }
}

proof fn lemma_filter_at<A>(s: Seq<A>, p: spec_fn(A) -> bool, i: int)
    requires
        0 <= i < s.len(),
        p(s[i]),
    ensures
        s.take(i).filter(p).len() < s.filter(p).len(),
        s.filter(p)[s.take(i).filter(p).len() as int] == s[i],
{
    let a = s.take(i);
    let b = s.skip(i + 1);
    assert(s =~= a.push(s[i]) + b);
    Seq::filter_distributes_over_add(a.push(s[i]), b, p);
    reveal(Seq::filter);
    assert(a.push(s[i]).drop_last() =~= a);
}

proof fn lemma_filter_after<A>(s: Seq<A>, p: spec_fn(A) -> bool, i: int, k: int)
    requires
        0 <= i < s.len(),
        p(s[i]),
        s.take(i).filter(p).len() < k < s.filter(p).len(),
    ensures
        exists|j: int| i < j < s.len() && s.filter(p)[k] == #[trigger] s[j] && p(s[j]),
{
    let a = s.take(i);
    let b = s.skip(i + 1);
    assert(s =~= a.push(s[i]) + b);
    Seq::filter_distributes_over_add(a.push(s[i]), b, p);
    reveal(Seq::filter);
    assert(a.push(s[i]).drop_last() =~= a);
    let f = b.filter(p);
    let m = k - a.filter(p).len() - 1;
    assert(s.filter(p)[k] == f[m]);
    b.lemma_filter_pred(p, m);
    assert(f.contains(f[m]));
    b.lemma_filter_contains_rev(p, f[m]);
    let j = choose|j: int| 0 <= j < b.len() && b[j] == f[m];
    assert(s[i + 1 + j] == b[j]);
}

/// A table at a past time has the column names before the rows that were there
/// at that time, each of them once and in the order of the table.
pub proof fn law_past_has_the_rows_of_its_time(
    names: Row,
    initial: Rows,
    updates: Rows,
    target: Instant,
)
    ensures
        ({
            let files = FilesView { initial: Ok(initial), updates: Ok(updates) };
            let there = initial.filter(|row: Row| was_there(row, target));
            &&& table::table_until(names, files, target) matches Ok(past)
            &&& past.len() == if there.len() == 0 {
                0
            } else {
                there.len() + 1
            }
            &&& past.len() > 0 ==> past[0] == names
            &&& forall|k: int|
                0 <= k < there.len() && there[k].len() > 0 ==> (#[trigger] past[k + 1]).len() > 0
                    && past[k + 1][0] == there[k][0]
        }),
{
    lemma_rows_until(initial, target);
    lemma_rows_until(updates, target);
    let there = table::rows_until(initial, target);
    let changed = table::rows_until(updates, target);
    let merged = rows::merged_table(there, changed);
    let past = seq![names] + merged;
    assert forall|k: int| 0 <= k < there.len() && there[k].len() > 0 implies (
    #[trigger] past[k + 1]).len() > 0 && past[k + 1][0] == there[k][0] by {
        rows::law_merge_keeps_rows(there, changed, k);
    }
}

/// At a past time a row has the form that the last update up to that time gave
/// it: of the updates of the row that carry a time not after it, the last in the
/// file is in the place of the row.
pub proof fn law_past_shows_the_last_update(
    names: Row,
    initial: Rows,
    updates: Rows,
    target: Instant,
    i: int,
    u: int,
)
    requires
        0 <= i < initial.len(),
        0 <= u < updates.len(),
        was_there(initial[i], target),
        was_there(updates[u], target),
        initial[i].len() > 0,
        updates[u].len() > 0,
        updates[u][0] == initial[i][0],
        forall|v: int|
            u < v < updates.len() && was_there(#[trigger] updates[v], target) && updates[v].len()
                > 0 ==> updates[v][0] != initial[i][0],
    ensures
        ({
            let files = FilesView { initial: Ok(initial), updates: Ok(updates) };
            let before = initial.take(i).filter(|row: Row| was_there(row, target)).len() as int;
            table::table_until(names, files, target) matches Ok(past) && before + 1 < past.len()
                && past[before + 1] == updates[u]
        }),
{
    let p = |row: Row| was_there(row, target);
    lemma_rows_until(initial, target);
    lemma_rows_until(updates, target);
    let there = initial.filter(p);
    let changed = updates.filter(p);
    lemma_filter_at(initial, p, i);
    lemma_filter_at(updates, p, u);
    let k = initial.take(i).filter(p).len() as int;
    let m = updates.take(u).filter(p).len() as int;
    assert forall|v: int| m < v < changed.len() && (#[trigger] changed[v]).len() > 0 implies changed[v][0]
        != initial[i][0] by {
        lemma_filter_after(updates, p, u, v);
        let j = choose|j: int| u < j < updates.len() && changed[v] == #[trigger] updates[j] && p(updates[j]);
        assert(was_there(updates[j], target));
    }
    lemma_last_update_is(changed, initial[i][0], m);
    assert(there[k] == initial[i]);
    let merged = rows::merged_table(there, changed);
    assert(merged[k] == updates[u]);
    assert((seq![names] + merged)[k + 1] == merged[k]);
}

/// At a past time a row that had not been updated yet is as it was inserted.
pub proof fn law_past_shows_the_inserted_row(
    names: Row,
    initial: Rows,
    updates: Rows,
    target: Instant,
    i: int,
)
    requires
        0 <= i < initial.len(),
        was_there(initial[i], target),
        forall|v: int|
            0 <= v < updates.len() && was_there(#[trigger] updates[v], target) && updates[v].len()
                > 0 ==> updates[v][0] != initial[i][0],
    ensures
        ({
            let files = FilesView { initial: Ok(initial), updates: Ok(updates) };
            let before = initial.take(i).filter(|row: Row| was_there(row, target)).len() as int;
            table::table_until(names, files, target) matches Ok(past) && before + 1 < past.len()
                && past[before + 1] == initial[i]
        }),
{
    let p = |row: Row| was_there(row, target);
    lemma_rows_until(initial, target);
    lemma_rows_until(updates, target);
    let there = initial.filter(p);
    let changed = updates.filter(p);
    lemma_filter_at(initial, p, i);
    let k = initial.take(i).filter(p).len() as int;
    assert forall|v: int| 0 <= v < changed.len() && (#[trigger] changed[v]).len() > 0 implies changed[v][0]
        != initial[i][0] by {
        updates.lemma_filter_pred(p, v);
        assert(changed.contains(changed[v]));
        updates.lemma_filter_contains_rev(p, changed[v]);
        let j = choose|j: int| 0 <= j < updates.len() && updates[j] == changed[v];
        assert(was_there(updates[j], target));
    }
    laws::lemma_no_update(changed, initial[i][0]);
    assert(there[k] == initial[i]);
    let merged = rows::merged_table(there, changed);
    assert(merged[k] == initial[i]);
    assert((seq![names] + merged)[k + 1] == merged[k]);
}

proof fn lemma_all_there(all: Rows, target: Instant)
    requires
        forall|i: int| 0 <= i < all.len() ==> was_there(#[trigger] all[i], target),
    ensures
        table::rows_until(all, target) == all,
    decreases all.len(),
{
    if all.len() > 0 {
        let d = all.drop_last();
        assert(forall|i: int| 0 <= i < d.len() ==> d[i] == all[i]);
        lemma_all_there(d, target);
        assert(all[all.len() - 1] == all.last());
        lemma_was_there(all.last(), target);
        assert(d.push(all.last()) =~= all);
    } else {
        assert(table::rows_until(all, target) =~= all);
    }
}

proof fn lemma_sorted_stays(all: Rows)
    requires
        rows::is_earliest_first(all),
    ensures
        rows::earliest_first(all) == all,
    decreases all.len(),
{
    if all.len() > 0 {
        let d = all.drop_last();
        assert(forall|i: int| 0 <= i < d.len() ==> d[i] == all[i]);
        lemma_sorted_stays(d);
        assert(all[all.len() - 1] == all.last());
        if d.len() > 0 {
            assert(all[all.len() - 2] == d.last());
        }
        assert(d.push(all.last()) =~= all);
    } else {
        assert(rows::earliest_first(all) =~= all);
    }
}

/// At a time by which everything had been written, a table is what it is now,
/// where the updates stand in the order of their times.
pub proof fn law_past_of_everything_is_the_present(
    names: Row,
    initial: Rows,
    updates: Rows,
    target: Instant,
)
    requires
        initial.len() > 0,
        forall|i: int| 0 <= i < initial.len() ==> was_there(#[trigger] initial[i], target),
        forall|u: int| 0 <= u < updates.len() ==> was_there(#[trigger] updates[u], target),
        rows::is_earliest_first(updates),
    ensures
        table::table_until(
            names,
            (FilesView { initial: Ok(initial), updates: Ok(updates) }),
            target,
        ) == Ok::<Rows, ErrorView>(seq![names] + table::current_rows(initial, updates)),
{
    lemma_all_there(initial, target);
    lemma_all_there(updates, target);
    lemma_sorted_stays(updates);
}

} // verus!
