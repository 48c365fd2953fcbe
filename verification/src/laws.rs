//! Laws of the mutation engine that relate several operations: how the
//! population of task identifiers evolves under adds and deletes, that an
//! all-absent detail update changes nothing, and that deletions are exact.

use vstd::prelude::*;

use crate::board::ColumnView;
use crate::board::TaskView;
use crate::ops::add_task_spec;
use crate::ops::delete_column_spec;
use crate::ops::delete_task_spec;
use crate::ops::find_col;
use crate::ops::keep_tasks;
use crate::ops::lemma_find_col_props;
use crate::ops::strip_task;
use crate::ops::update_details_spec;
use crate::ops::with_tasks;

verus! {

/// How many tasks in one column carry the identifier `x`.
pub open spec fn count_in_tasks(tasks: Seq<TaskView>, x: Seq<char>) -> nat
    decreases tasks.len(),
{
    if tasks.len() == 0 {
        0
    } else {
        count_in_tasks(tasks.drop_last(), x) + if tasks.last().id == x {
            1nat
        } else {
            0nat
        }
    }
}

/// How many tasks on the whole board carry the identifier `x`.
pub open spec fn count_in_board(cols: Seq<ColumnView>, x: Seq<char>) -> nat
    decreases cols.len(),
{
    if cols.len() == 0 {
        0
    } else {
        count_in_board(cols.drop_last(), x) + count_in_tasks(cols.last().tasks, x)
    }
}

/// How many tasks the whole board holds.
pub open spec fn total_tasks(cols: Seq<ColumnView>) -> nat
    decreases cols.len(),
{
    if cols.len() == 0 {
        0
    } else {
        total_tasks(cols.drop_last()) + cols.last().tasks.len()
    }
}

/// Replacing one column changes each identifier's population, and the
/// total, only by the difference between the old and the new column.
proof fn lemma_count_update(cols: Seq<ColumnView>, ci: int, c2: ColumnView, x: Seq<char>)
    requires
        0 <= ci < cols.len(),
    ensures
        count_in_board(cols.update(ci, c2), x) + count_in_tasks(cols[ci].tasks, x)
            == count_in_board(cols, x) + count_in_tasks(c2.tasks, x),
        total_tasks(cols.update(ci, c2)) + cols[ci].tasks.len() == total_tasks(cols)
            + c2.tasks.len(),
    decreases cols.len(),
{
    let upd = cols.update(ci, c2);
    if ci == cols.len() - 1 {
        assert(upd.drop_last() =~= cols.drop_last());
    } else {
        assert(upd.drop_last() =~= cols.drop_last().update(ci, c2));
        lemma_count_update(cols.drop_last(), ci, c2, x);
        assert(upd.last() == cols.last());
    }
}

/// Appending one task to a column's sequence raises the count of its
/// identifier by one and leaves every other count unchanged.
proof fn lemma_count_push(tasks: Seq<TaskView>, t: TaskView, x: Seq<char>)
    ensures
        count_in_tasks(tasks.push(t), x) == count_in_tasks(tasks, x) + if t.id == x {
            1nat
        } else {
            0nat
        },
{
    assert(tasks.push(t).drop_last() =~= tasks);
}

/// Adding a task to a board puts exactly one occurrence of its identifier
/// into the population of task identifiers — no other identifier's count
/// moves, nothing is lost, nothing is duplicated — and raises the total
/// number of tasks by one.
pub proof fn lemma_add_task_ids(cols: Seq<ColumnView>, ci: int, t: TaskView, x: Seq<char>)
    requires
        0 <= ci < cols.len(),
    ensures
        count_in_board(add_task_spec(cols, ci, t), x) == count_in_board(cols, x) + if t.id == x {
            1nat
        } else {
            0nat
        },
        total_tasks(add_task_spec(cols, ci, t)) == total_tasks(cols) + 1,
{
    let c2 = with_tasks(cols[ci], cols[ci].tasks.push(t));
    lemma_count_update(cols, ci, c2, x);
    lemma_count_push(cols[ci].tasks, t, x);
}

/// Filtering one column's tasks by an identifier removes every occurrence
/// of that identifier and no occurrence of any other.
proof fn lemma_count_keep_tasks(tasks: Seq<TaskView>, id: Seq<char>, x: Seq<char>)
    ensures
        count_in_tasks(keep_tasks(tasks, id), x) == if x == id {
            0nat
        } else {
            count_in_tasks(tasks, x)
        },
    decreases tasks.len(),
{
    reveal(Seq::filter);
    if tasks.len() > 0 {
        lemma_count_keep_tasks(tasks.drop_last(), id, x);
        if tasks.last().id != id {
            lemma_count_push(keep_tasks(tasks.drop_last(), id), tasks.last(), x);
        }
    }
}

/// Deleting a task identifier from the board empties its population and
/// leaves the population of every other identifier exactly as it was.
pub proof fn lemma_delete_task_ids(cols: Seq<ColumnView>, id: Seq<char>, x: Seq<char>)
    ensures
        count_in_board(delete_task_spec(cols, id), x) == if x == id {
            0nat
        } else {
            count_in_board(cols, x)
        },
    decreases cols.len(),
{
    let out = delete_task_spec(cols, id);
    if cols.len() == 0 {
        assert(out.len() == 0);
    } else {
        lemma_delete_task_ids(cols.drop_last(), id, x);
        lemma_count_keep_tasks(cols.last().tasks, id, x);
        assert(out.drop_last() =~= delete_task_spec(cols.drop_last(), id));
        assert(out.last() == strip_task(cols.last(), id));
    }
}

/// Whether no task identifier occurs twice anywhere on the board.
pub open spec fn task_ids_unique(cols: Seq<ColumnView>) -> bool {
    forall|x: Seq<char>| #[trigger] count_in_board(cols, x) <= 1
}

/// Adding a task whose identifier is not yet on the board keeps the
/// board's task identifiers unique.
pub proof fn lemma_add_fresh_task_keeps_ids_unique(cols: Seq<ColumnView>, ci: int, t: TaskView)
    requires
        0 <= ci < cols.len(),
        task_ids_unique(cols),
        count_in_board(cols, t.id) == 0,
    ensures
        task_ids_unique(add_task_spec(cols, ci, t)),
{
    assert forall|x: Seq<char>| #[trigger] count_in_board(add_task_spec(cols, ci, t), x)
        <= 1 by {
        lemma_add_task_ids(cols, ci, t, x);
    }
}

/// Deleting a task identifier keeps the board's task identifiers unique.
pub proof fn lemma_delete_task_keeps_ids_unique(cols: Seq<ColumnView>, id: Seq<char>)
    requires
        task_ids_unique(cols),
    ensures
        task_ids_unique(delete_task_spec(cols, id)),
{
    assert forall|x: Seq<char>| #[trigger] count_in_board(delete_task_spec(cols, id), x) <= 1 by {
        lemma_delete_task_ids(cols, id, x);
    }
}

/// A detail update in which every optional field is absent leaves the
/// task exactly as it was.
pub proof fn lemma_update_details_noop(t: TaskView)
    ensures
        update_details_spec(t, None, None, None, None) == t,
{
    assert(update_details_spec(t, None, None, None, None) =~~= t);
}

/// A column filter that matches nothing keeps the board exactly as it is.
proof fn lemma_filter_all_kept(cols: Seq<ColumnView>, id: Seq<char>)
    requires
        forall|j: int| 0 <= j < cols.len() ==> cols[j].id != id,
    ensures
        delete_column_spec(cols, id) == cols,
    decreases cols.len(),
{
    reveal(Seq::filter);
    if cols.len() > 0 {
        lemma_filter_all_kept(cols.drop_last(), id);
        assert(delete_column_spec(cols, id) =~= cols);
    }
}

/// Deleting a column identifier that no column carries is a no-op.
pub proof fn lemma_delete_column_absent(cols: Seq<ColumnView>, id: Seq<char>)
    requires
        find_col(cols, id) is None,
    ensures
        delete_column_spec(cols, id) == cols,
{
    lemma_find_col_props(cols, id);
    lemma_filter_all_kept(cols, id);
}

/// One column's tasks survive untouched when none carries the deleted
/// task identifier.
proof fn lemma_keep_tasks_all(tasks: Seq<TaskView>, id: Seq<char>)
    requires
        forall|k: int| 0 <= k < tasks.len() ==> tasks[k].id != id,
    ensures
        keep_tasks(tasks, id) == tasks,
    decreases tasks.len(),
{
    reveal(Seq::filter);
    if tasks.len() > 0 {
        lemma_keep_tasks_all(tasks.drop_last(), id);
        assert(keep_tasks(tasks, id) =~= tasks);
    }
}

/// Deleting a task identifier that no task carries is a no-op.
pub proof fn lemma_delete_task_absent(cols: Seq<ColumnView>, id: Seq<char>)
    requires
        forall|j: int, k: int|
            0 <= j < cols.len() && 0 <= k < cols[j].tasks.len() ==> cols[j].tasks[k].id != id,
    ensures
        delete_task_spec(cols, id) == cols,
{
    assert forall|j: int| 0 <= j < cols.len() implies delete_task_spec(cols, id)[j] == cols[j] by {
        lemma_keep_tasks_all(cols[j].tasks, id);
        assert(strip_task(cols[j], id) =~= cols[j]);
    }
    assert(delete_task_spec(cols, id) =~= cols);
}

/// When column identifiers are unique, deleting one column removes
/// exactly that column: the columns around it, and all their tasks, stand
/// unchanged in their order.
pub proof fn lemma_delete_column_exact(cols: Seq<ColumnView>, id: Seq<char>, ci: int)
    requires
        0 <= ci < cols.len(),
        cols[ci].id == id,
        forall|j: int| 0 <= j < cols.len() && j != ci ==> cols[j].id != id,
    ensures
        delete_column_spec(cols, id) == cols.remove(ci),
    decreases cols.len(),
{
    reveal(Seq::filter);
    if ci == cols.len() - 1 {
        lemma_filter_all_kept(cols.drop_last(), id);
        assert(delete_column_spec(cols, id) =~= cols.remove(ci));
    } else {
        lemma_delete_column_exact(cols.drop_last(), id, ci);
        assert(cols.remove(ci) =~= cols.drop_last().remove(ci).push(cols.last()));
        assert(delete_column_spec(cols, id) =~= cols.remove(ci));
    }
}

} // verus!
