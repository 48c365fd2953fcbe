//! The mutation operations of the board store, with their exact contracts,
//! and the spec-level transformers those contracts are stated over.

use vstd::prelude::*;

use crate::board::Attachment;
use crate::board::AttachmentView;
use crate::board::Board;
use crate::board::BoardError;
use crate::board::Column;
use crate::board::ColumnView;
use crate::board::Comment;
use crate::board::CommentView;
use crate::board::Task;
use crate::board::TaskView;
use crate::gen::fresh_id;
use crate::gen::now_rfc3339;

verus! {

/// Index of the first column whose identifier is `id`, scanning in order.
pub open spec fn find_col(cols: Seq<ColumnView>, id: Seq<char>) -> Option<int>
    decreases cols.len(),
{
    if cols.len() == 0 {
        None
    } else if cols[0].id == id {
        Some(0)
    } else {
        match find_col(cols.drop_first(), id) {
            None => None,
            Some(i) => Some(i + 1),
        }
    }
}

/// Index of the first task whose identifier is `id` within one column's
/// task sequence.
pub open spec fn find_task_in(tasks: Seq<TaskView>, id: Seq<char>) -> Option<int>
    decreases tasks.len(),
{
    if tasks.len() == 0 {
        None
    } else if tasks[0].id == id {
        Some(0)
    } else {
        match find_task_in(tasks.drop_first(), id) {
            None => None,
            Some(i) => Some(i + 1),
        }
    }
}

/// Position (column index, task index) of the first task whose identifier
/// is `id`, scanning columns in order and each column's tasks in order.
pub open spec fn find_task(cols: Seq<ColumnView>, id: Seq<char>) -> Option<(int, int)>
    decreases cols.len(),
{
    if cols.len() == 0 {
        None
    } else {
        match find_task_in(cols[0].tasks, id) {
            Some(t) => Some((0, t)),
            None => match find_task(cols.drop_first(), id) {
                None => None,
                Some(p) => Some(((p.0 + 1), p.1)),
            },
        }
    }
}

/// What `find_col` returns: the first matching index, or nothing when no
/// column carries the identifier.
pub proof fn lemma_find_col_props(cols: Seq<ColumnView>, id: Seq<char>)
    ensures
        match find_col(cols, id) {
            Some(i) => 0 <= i < cols.len() && cols[i].id == id && (forall|j: int|
                0 <= j < i ==> cols[j].id != id),
            None => forall|j: int| 0 <= j < cols.len() ==> cols[j].id != id,
        },
    decreases cols.len(),
{
    if cols.len() > 0 && cols[0].id != id {
        let rest = cols.drop_first();
        lemma_find_col_props(rest, id);
        match find_col(rest, id) {
            Some(i) => {
                assert(rest[i] == cols[i + 1]);
                assert forall|j: int| 0 <= j < i + 1 implies cols[j].id != id by {
                    if j > 0 {
                        assert(rest[j - 1] == cols[j]);
                    }
                }
            },
            None => {
                assert forall|j: int| 0 <= j < cols.len() implies cols[j].id != id by {
                    if j > 0 {
                        assert(rest[j - 1] == cols[j]);
                    }
                }
            },
        }
    }
}

/// What `find_task_in` returns: the first matching index, or nothing when
/// no task in the sequence carries the identifier.
pub proof fn lemma_find_task_in_props(tasks: Seq<TaskView>, id: Seq<char>)
    ensures
        match find_task_in(tasks, id) {
            Some(i) => 0 <= i < tasks.len() && tasks[i].id == id && (forall|j: int|
                0 <= j < i ==> tasks[j].id != id),
            None => forall|j: int| 0 <= j < tasks.len() ==> tasks[j].id != id,
        },
    decreases tasks.len(),
{
    if tasks.len() > 0 && tasks[0].id != id {
        let rest = tasks.drop_first();
        lemma_find_task_in_props(rest, id);
        match find_task_in(rest, id) {
            Some(i) => {
                assert(rest[i] == tasks[i + 1]);
                assert forall|j: int| 0 <= j < i + 1 implies tasks[j].id != id by {
                    if j > 0 {
                        assert(rest[j - 1] == tasks[j]);
                    }
                }
            },
            None => {
                assert forall|j: int| 0 <= j < tasks.len() implies tasks[j].id != id by {
                    if j > 0 {
                        assert(rest[j - 1] == tasks[j]);
                    }
                }
            },
        }
    }
}

/// What `find_task` returns: valid indices of the first matching task in
/// the first column that holds one, or nothing when no column does.
pub proof fn lemma_find_task_props(cols: Seq<ColumnView>, id: Seq<char>)
    ensures
        match find_task(cols, id) {
            Some(p) => 0 <= p.0 < cols.len() && 0 <= p.1 < cols[p.0].tasks.len()
                && cols[p.0].tasks[p.1].id == id && (forall|j: int, k: int|
                0 <= j < p.0 && 0 <= k < cols[j].tasks.len() ==> cols[j].tasks[k].id != id) && (
            forall|k: int| 0 <= k < p.1 ==> cols[p.0].tasks[k].id != id),
            None => forall|j: int, k: int|
                0 <= j < cols.len() && 0 <= k < cols[j].tasks.len() ==> cols[j].tasks[k].id != id,
        },
    decreases cols.len(),
{
    if cols.len() > 0 {
        let rest = cols.drop_first();
        lemma_find_task_in_props(cols[0].tasks, id);
        if find_task_in(cols[0].tasks, id) is None {
            lemma_find_task_props(rest, id);
            match find_task(rest, id) {
                Some(p) => {
                    assert(rest[p.0] == cols[p.0 + 1]);
                    assert forall|j: int, k: int|
                        0 <= j < p.0 + 1 && 0 <= k < cols[j].tasks.len() implies cols[j].tasks[k].id
                        != id by {
                        if j > 0 {
                            assert(rest[j - 1] == cols[j]);
                        }
                    }
                },
                None => {
                    assert forall|j: int, k: int|
                        0 <= j < cols.len() && 0 <= k < cols[j].tasks.len() implies cols[j].tasks[k].id
                        != id by {
                        if j > 0 {
                            assert(rest[j - 1] == cols[j]);
                        }
                    }
                },
            }
        }
    }
}

/// A task as `add_task` creates it: the given identifier and content,
/// every other field empty.
pub open spec fn empty_task(id: Seq<char>, content: Seq<char>) -> TaskView {
    TaskView {
        id,
        content,
        description: None,
        due_date: None,
        labels: Seq::empty(),
        comments: Seq::empty(),
        attachments: Seq::empty(),
    }
}

/// `c` with its task sequence replaced.
pub open spec fn with_tasks(c: ColumnView, tasks: Seq<TaskView>) -> ColumnView {
    ColumnView { id: c.id, title: c.title, tasks }
}

/// The board after a task is appended to the column at `ci`.
pub open spec fn add_task_spec(cols: Seq<ColumnView>, ci: int, t: TaskView) -> Seq<ColumnView> {
    cols.update(ci, with_tasks(cols[ci], cols[ci].tasks.push(t)))
}

/// The board after the task at position (`ci`, `ti`) is replaced.
pub open spec fn set_task_spec(cols: Seq<ColumnView>, ci: int, ti: int, t: TaskView) -> Seq<
    ColumnView,
> {
    cols.update(ci, with_tasks(cols[ci], cols[ci].tasks.update(ti, t)))
}

/// The board after every column with identifier `id` is removed. Columns
/// that remain keep their order and their tasks.
pub open spec fn delete_column_spec(cols: Seq<ColumnView>, id: Seq<char>) -> Seq<ColumnView> {
    cols.filter(|c: ColumnView| c.id != id)
}

/// The tasks of one column that survive deleting identifier `id`.
pub open spec fn keep_tasks(tasks: Seq<TaskView>, id: Seq<char>) -> Seq<TaskView> {
    tasks.filter(|t: TaskView| t.id != id)
}

/// One column after every task with identifier `id` is removed from it.
pub open spec fn strip_task(c: ColumnView, id: Seq<char>) -> ColumnView {
    with_tasks(c, keep_tasks(c.tasks, id))
}

/// The board after every task with identifier `id` is removed from every
/// column. Order of the surviving tasks is preserved.
pub open spec fn delete_task_spec(cols: Seq<ColumnView>, id: Seq<char>) -> Seq<ColumnView> {
    cols.map_values(|c: ColumnView| strip_task(c, id))
}

/// `t` with its content replaced and every other field unchanged.
pub open spec fn with_content(t: TaskView, content: Seq<char>) -> TaskView {
    TaskView {
        id: t.id,
        content,
        description: t.description,
        due_date: t.due_date,
        labels: t.labels,
        comments: t.comments,
        attachments: t.attachments,
    }
}

/// `t` with one comment appended.
pub open spec fn with_comment(t: TaskView, c: CommentView) -> TaskView {
    TaskView {
        id: t.id,
        content: t.content,
        description: t.description,
        due_date: t.due_date,
        labels: t.labels,
        comments: t.comments.push(c),
        attachments: t.attachments,
    }
}

/// `t` with one attachment appended.
pub open spec fn with_attachment(t: TaskView, a: AttachmentView) -> TaskView {
    TaskView {
        id: t.id,
        content: t.content,
        description: t.description,
        due_date: t.due_date,
        labels: t.labels,
        comments: t.comments,
        attachments: t.attachments.push(a),
    }
}

/// What `add_task` guarantees when the column exists: one task was
/// appended to that column, with the given content, empty nested
/// collections, and a generated 36-character identifier.
pub open spec fn added_task_ok(
    before: Seq<ColumnView>,
    after: Seq<ColumnView>,
    ci: int,
    content: Seq<char>,
) -> bool {
    &&& after[ci].tasks.len() == before[ci].tasks.len() + 1
    &&& ({
        let t = after[ci].tasks.last();
        &&& t == empty_task(t.id, content)
        &&& t.id.len() == 36
        &&& after == add_task_spec(before, ci, t)
    })
}

/// What `add_comment` guarantees when the task exists: one comment was
/// appended to it, with the given content, the fixed author, a generated
/// 36-character identifier, and some timestamp.
pub open spec fn added_comment_ok(
    before: Seq<ColumnView>,
    after: Seq<ColumnView>,
    ci: int,
    ti: int,
    content: Seq<char>,
) -> bool {
    let oldt = before[ci].tasks[ti];
    let newt = after[ci].tasks[ti];
    &&& newt.comments.len() == oldt.comments.len() + 1
    &&& ({
        let c = newt.comments.last();
        &&& c.author == "User"@
        &&& c.content == content
        &&& c.id.len() == 36
        &&& after == set_task_spec(before, ci, ti, with_comment(oldt, c))
    })
}

/// What `add_attachment` guarantees when the task exists: one attachment
/// was appended to it, carrying the given metadata and a generated
/// 36-character identifier.
pub open spec fn added_attachment_ok(
    before: Seq<ColumnView>,
    after: Seq<ColumnView>,
    ci: int,
    ti: int,
    file_name: Seq<char>,
    file_path: Seq<char>,
    mime_type: Seq<char>,
) -> bool {
    let oldt = before[ci].tasks[ti];
    let newt = after[ci].tasks[ti];
    &&& newt.attachments.len() == oldt.attachments.len() + 1
    &&& ({
        let a = newt.attachments.last();
        &&& a.file_name == file_name
        &&& a.file_path == file_path
        &&& a.mime_type == mime_type
        &&& a.id.len() == 36
        &&& after == set_task_spec(before, ci, ti, with_attachment(oldt, a))
    })
}

/// A destination index clamped to append when it exceeds the length.
pub open spec fn clamp_index(i: int, len: int) -> int {
    if i > len {
        len
    } else {
        i
    }
}

/// The board after the task at `s_idx` of column `si` moves to position
/// `d_idx` (clamped) of column `di`, as one atomic remove-then-insert.
/// Within one column the destination index is interpreted against the
/// sequence with the moved task already removed.
pub open spec fn move_task_spec(
    cols: Seq<ColumnView>,
    si: int,
    di: int,
    s_idx: int,
    d_idx: int,
) -> Seq<ColumnView> {
    let t = cols[si].tasks[s_idx];
    if si == di {
        let rem = cols[si].tasks.remove(s_idx);
        cols.update(si, with_tasks(cols[si], rem.insert(clamp_index(d_idx, rem.len() as int), t)))
    } else {
        let src_rem = cols[si].tasks.remove(s_idx);
        let dst = cols[di].tasks;
        let ins = clamp_index(d_idx, dst.len() as int);
        cols.update(si, with_tasks(cols[si], src_rem)).update(
            di,
            with_tasks(cols[di], dst.insert(ins, t)),
        )
    }
}

/// `t` with each provided field replaced and each absent field unchanged.
pub open spec fn update_details_spec(
    t: TaskView,
    content: Option<Seq<char>>,
    description: Option<Seq<char>>,
    due_date: Option<Seq<char>>,
    labels: Option<Seq<Seq<char>>>,
) -> TaskView {
    TaskView {
        id: t.id,
        content: match content {
            Some(c) => c,
            None => t.content,
        },
        description: match description {
            Some(d) => Some(d),
            None => t.description,
        },
        due_date: match due_date {
            Some(d) => Some(d),
            None => t.due_date,
        },
        labels: match labels {
            Some(l) => l,
            None => t.labels,
        },
        comments: t.comments,
        attachments: t.attachments,
    }
}

/// Removing an element and inserting another at the same place is an
/// update in place.
pub proof fn lemma_remove_insert<A>(s: Seq<A>, i: int, v: A)
    requires
        0 <= i < s.len(),
    ensures
        s.remove(i).insert(i, v) =~= s.update(i, v),
{
}

impl Board {
    /// Index of the first column whose identifier equals `id`, if any.
    pub fn find_column_index(&self, id: &String) -> (r: Option<usize>)
        ensures
            match r {
                Some(i) => i < self@.len() && find_col(self@, id@) == Some(i as int),
                None => find_col(self@, id@) is None,
            },
    {
        let n = self.columns.len();
        let mut i: usize = 0;
        while i < n
            invariant
                n == self.columns@.len(),
                0 <= i <= n,
                forall|j: int| 0 <= j < i ==> self@[j].id != id@,
            decreases n - i,
        {
            if self.columns[i].id == *id {
                proof {
                    assert(self@[i as int].id == id@);
                    lemma_find_col_props(self@, id@);
                    match find_col(self@, id@) {
                        Some(k) => {
                            if k < i as int {
                                assert(self@[k].id != id@);
                            } else if k > i as int {
                                assert(self@[i as int].id != id@);
                            }
                        },
                        None => {
                            assert(self@[i as int].id != id@);
                        },
                    }
                }
                return Some(i);
            }
            i += 1;
        }
        proof {
            lemma_find_col_props(self@, id@);
            match find_col(self@, id@) {
                Some(k) => {
                    assert(self@[k].id != id@);
                },
                None => {},
            }
        }
        None
    }

    /// Position (column index, task index) of the first task whose
    /// identifier equals `id`, if any.
    pub fn locate_task(&self, id: &String) -> (r: Option<(usize, usize)>)
        ensures
            match r {
                Some(p) => p.0 < self@.len() && p.1 < self@[p.0 as int].tasks.len() && find_task(
                    self@,
                    id@,
                ) == Some((p.0 as int, p.1 as int)),
                None => find_task(self@, id@) is None,
            },
    {
        let n = self.columns.len();
        let mut i: usize = 0;
        while i < n
            invariant
                n == self.columns@.len(),
                0 <= i <= n,
                forall|j: int, k: int|
                    0 <= j < i && 0 <= k < self@[j].tasks.len() ==> self@[j].tasks[k].id != id@,
            decreases n - i,
        {
            let col = &self.columns[i];
            let m = col.tasks.len();
            let mut k: usize = 0;
            while k < m
                invariant
                    n == self.columns@.len(),
                    0 <= i < n,
                    m == self@[i as int].tasks.len(),
                    col == self.columns@[i as int],
                    0 <= k <= m,
                    forall|j: int, l: int|
                        0 <= j < i && 0 <= l < self@[j].tasks.len() ==> self@[j].tasks[l].id != id@,
                    forall|j: int| 0 <= j < k ==> self@[i as int].tasks[j].id != id@,
                decreases m - k,
            {
                if col.tasks[k].id == *id {
                    proof {
                        assert(self@[i as int].tasks[k as int].id == id@);
                        lemma_find_task_props(self@, id@);
                        match find_task(self@, id@) {
                            Some(p) => {
                                if p.0 < i as int {
                                    assert(self@[p.0].tasks[p.1].id == id@);
                                } else if p.0 > i as int {
                                    assert(self@[i as int].tasks[k as int].id != id@);
                                } else {
                                    if p.1 < k as int {
                                        assert(self@[i as int].tasks[p.1].id != id@);
                                    } else if p.1 > k as int {
                                        assert(self@[i as int].tasks[k as int].id != id@);
                                    }
                                }
                            },
                            None => {
                                assert(self@[i as int].tasks[k as int].id != id@);
                            },
                        }
                    }
                    return Some((i, k));
                }
                k += 1;
            }
            i += 1;
        }
        proof {
            lemma_find_task_props(self@, id@);
            match find_task(self@, id@) {
                Some(p) => {
                    assert(self@[p.0].tasks[p.1].id != id@);
                },
                None => {},
            }
        }
        None
    }

    /// Appends a new column with the given identifier and title and no
    /// tasks; the columns before it are untouched. Never fails.
    pub fn add_column_with_id(&mut self, id: String, title: String)
        ensures
            final(self)@ == old(self)@.push(
                ColumnView { id: id@, title: title@, tasks: Seq::empty() },
            ),
    {
        let ghost gid = id@;
        let ghost gtitle = title@;
        self.columns.push(Column { id, title, tasks: Vec::new() });
        proof {
            assert(self@ =~~= old(self)@.push(
                ColumnView { id: gid, title: gtitle, tasks: Seq::empty() },
            ));
        }
    }

    /// Removes every column whose identifier equals `column_id`; a missing
    /// identifier is a tolerated no-op, not an error. Never fails.
    pub fn delete_column(&mut self, column_id: &String)
        ensures
            final(self)@ == delete_column_spec(old(self)@, column_id@),
    {
        let ghost olen = old(self)@.len();
        let mut i: usize = 0;
        let ghost mut j: int = 0;
        proof {
            reveal(Seq::filter);
            assert(delete_column_spec(old(self)@.subrange(0, 0), column_id@).len() == 0);
            assert(self@ =~= delete_column_spec(old(self)@.subrange(0, 0), column_id@) + old(
                self,
            )@.subrange(0, olen as int));
        }
        while i < self.columns.len()
            invariant
                0 <= j <= olen,
                olen == old(self)@.len(),
                i as int == delete_column_spec(old(self)@.subrange(0, j), column_id@).len(),
                self@ == delete_column_spec(old(self)@.subrange(0, j), column_id@) + old(
                    self,
                )@.subrange(j, olen as int),
            decreases olen - j,
        {
            proof {
                reveal(Seq::filter);
                assert(self@.len() == i + (olen - j));
                assert(j < olen);
                assert(old(self)@.subrange(0, j + 1).drop_last() =~= old(self)@.subrange(0, j));
                assert(old(self)@.subrange(0, j + 1).last() == old(self)@[j]);
                assert(self@[i as int] == old(self)@.subrange(j, olen as int)[0]);
                assert(self@[i as int] == old(self)@[j]);
            }
            if self.columns[i].id == *column_id {
                proof {
                    assert(self@[i as int].id == self.columns@[i as int].id@);
                    assert(old(self)@[j].id == column_id@);
                }
                let ghost before = self@;
                self.columns.remove(i);
                proof {
                    reveal(Seq::filter);
                    assert(self@ =~~= before.remove(i as int));
                    assert(delete_column_spec(old(self)@.subrange(0, j + 1), column_id@)
                        == delete_column_spec(old(self)@.subrange(0, j), column_id@));
                    assert(self@ =~= delete_column_spec(old(self)@.subrange(0, j + 1), column_id@)
                        + old(self)@.subrange(j + 1, olen as int));
                }
            } else {
                proof {
                    reveal(Seq::filter);
                    assert(self@[i as int].id == self.columns@[i as int].id@);
                    assert(old(self)@[j].id != column_id@);
                    assert(delete_column_spec(old(self)@.subrange(0, j + 1), column_id@)
                        == delete_column_spec(old(self)@.subrange(0, j), column_id@).push(
                        old(self)@[j],
                    ));
                    assert(self@ =~= delete_column_spec(old(self)@.subrange(0, j + 1), column_id@)
                        + old(self)@.subrange(j + 1, olen as int));
                }
                i += 1;
            }
            proof {
                j = j + 1;
            }
        }
        proof {
            assert(self@.len() == i + (olen - j));
            assert(i as int == self@.len());
            assert(j == olen);
            assert(old(self)@.subrange(0, olen as int) =~= old(self)@);
            assert(self@ =~= delete_column_spec(old(self)@, column_id@));
        }
    }

    /// Appends a new column with a generated identifier, the given title,
    /// and no tasks. Never fails.
    pub fn add_column(&mut self, title: String)
        ensures
            final(self)@.len() == old(self)@.len() + 1,
            final(self)@.drop_last() == old(self)@,
            final(self)@.last().title == title@,
            final(self)@.last().tasks == Seq::<TaskView>::empty(),
            final(self)@.last().id.len() == 36,
    {
        let id = fresh_id();
        let ghost gid = id@;
        self.add_column_with_id(id, title);
        proof {
            assert(self@.drop_last() =~= old(self)@);
        }
    }

    /// Takes the task at (`ci`, `ti`) out of the board, transferring its
    /// ownership to the caller.
    fn extract_task(&mut self, ci: usize, ti: usize) -> (t: Task)
        requires
            ci < old(self)@.len(),
            ti < old(self)@[ci as int].tasks.len(),
        ensures
            t@ == old(self)@[ci as int].tasks[ti as int],
            final(self)@ == old(self)@.update(
                ci as int,
                with_tasks(old(self)@[ci as int], old(self)@[ci as int].tasks.remove(ti as int)),
            ),
    {
        let mut col = self.columns.remove(ci);
        let t = col.tasks.remove(ti);
        let ghost mid = col.tasks.deep_view();
        self.columns.insert(ci, col);
        proof {
            assert(mid =~~= old(self)@[ci as int].tasks.remove(ti as int));
            assert(col@ == with_tasks(
                old(self)@[ci as int],
                old(self)@[ci as int].tasks.remove(ti as int),
            ));
            assert(self@ =~~= old(self)@.update(ci as int, col@));
        }
        t
    }

    /// Puts a task back into the board at (`ci`, `ti`).
    fn place_task(&mut self, ci: usize, ti: usize, t: Task)
        requires
            ci < old(self)@.len(),
            ti <= old(self)@[ci as int].tasks.len(),
        ensures
            final(self)@ == old(self)@.update(
                ci as int,
                with_tasks(old(self)@[ci as int], old(self)@[ci as int].tasks.insert(ti as int, t@)),
            ),
    {
        let ghost gt = t@;
        let mut col = self.columns.remove(ci);
        col.tasks.insert(ti, t);
        let ghost mid = col.tasks.deep_view();
        self.columns.insert(ci, col);
        proof {
            assert(mid =~~= old(self)@[ci as int].tasks.insert(ti as int, gt));
            assert(col@ == with_tasks(
                old(self)@[ci as int],
                old(self)@[ci as int].tasks.insert(ti as int, gt),
            ));
            assert(self@ =~~= old(self)@.update(ci as int, col@));
        }
    }

    /// Appends a task with the given identifier and content and empty
    /// nested collections to the column whose identifier is `column_id`;
    /// fails with `ColumnNotFound`, leaving the board unchanged, exactly
    /// when no column carries that identifier.
    pub fn add_task_with_id(&mut self, column_id: &String, id: String, content: String) -> (r:
        Result<(), BoardError>)
        ensures
            match find_col(old(self)@, column_id@) {
                Some(ci) => r == Ok::<(), BoardError>(()) && final(self)@ == add_task_spec(
                    old(self)@,
                    ci,
                    empty_task(id@, content@),
                ),
                None => r == Err::<(), BoardError>(BoardError::ColumnNotFound) && final(self)@
                    == old(self)@,
            },
    {
        let ghost gid = id@;
        let ghost gcontent = content@;
        match self.find_column_index(column_id) {
            Some(ci) => {
                let mut col = self.columns.remove(ci);
                col.tasks.push(
                    Task {
                        id,
                        content,
                        description: None,
                        due_date: None,
                        labels: Vec::new(),
                        comments: Vec::new(),
                        attachments: Vec::new(),
                    },
                );
                let ghost mid = col.tasks.deep_view();
                self.columns.insert(ci, col);
                proof {
                    assert(mid =~~= old(self)@[ci as int].tasks.push(empty_task(gid, gcontent)));
                    assert(col@ == with_tasks(
                        old(self)@[ci as int],
                        old(self)@[ci as int].tasks.push(empty_task(gid, gcontent)),
                    ));
                    assert(self@ =~~= add_task_spec(old(self)@, ci as int, empty_task(gid, gcontent)));
                }
                Ok(())
            },
            None => Err(BoardError::ColumnNotFound),
        }
    }

    /// Appends a task with a generated identifier and the given content to
    /// the column whose identifier is `column_id`; fails with
    /// `ColumnNotFound`, leaving the board unchanged, exactly when no
    /// column carries that identifier.
    pub fn add_task(&mut self, column_id: &String, content: String) -> (r: Result<(), BoardError>)
        ensures
            match find_col(old(self)@, column_id@) {
                Some(ci) => r == Ok::<(), BoardError>(()) && added_task_ok(
                    old(self)@,
                    final(self)@,
                    ci,
                    content@,
                ),
                None => r == Err::<(), BoardError>(BoardError::ColumnNotFound) && final(self)@
                    == old(self)@,
            },
    {
        let id = fresh_id();
        let ghost gid = id@;
        let ghost gcontent = content@;
        let r = self.add_task_with_id(column_id, id, content);
        proof {
            match find_col(old(self)@, column_id@) {
                Some(ci) => {
                    lemma_find_col_props(old(self)@, column_id@);
                    assert(self@[ci].tasks.last() == empty_task(gid, gcontent));
                },
                None => {},
            }
        }
        r
    }

    /// Replaces the content of the first task whose identifier is
    /// `task_id`; a missing task is a tolerated no-op, not an error.
    pub fn update_task(&mut self, task_id: &String, content: String)
        ensures
            match find_task(old(self)@, task_id@) {
                Some(p) => final(self)@ == set_task_spec(
                    old(self)@,
                    p.0,
                    p.1,
                    with_content(old(self)@[p.0].tasks[p.1], content@),
                ),
                None => final(self)@ == old(self)@,
            },
    {
        let ghost gcontent = content@;
        match self.locate_task(task_id) {
            Some((ci, ti)) => {
                let ghost oldt = self@[ci as int].tasks[ti as int];
                let mut t = self.extract_task(ci, ti);
                t.content = content;
                proof {
                    assert(t@ =~~= with_content(oldt, gcontent));
                }
                self.place_task(ci, ti, t);
                proof {
                    lemma_extract_place(old(self)@, ci as int, ti as int, with_content(oldt, gcontent));
                }
            },
            None => {},
        }
    }

    /// Replaces each provided field of the first task whose identifier is
    /// `task_id`, leaving absent fields unchanged; fails with
    /// `TaskNotFound`, leaving the board unchanged, exactly when no task
    /// carries that identifier.
    pub fn update_task_details(
        &mut self,
        task_id: &String,
        content: Option<String>,
        description: Option<String>,
        due_date: Option<String>,
        labels: Option<Vec<String>>,
    ) -> (r: Result<(), BoardError>)
        ensures
            match find_task(old(self)@, task_id@) {
                Some(p) => r == Ok::<(), BoardError>(()) && final(self)@ == set_task_spec(
                    old(self)@,
                    p.0,
                    p.1,
                    update_details_spec(
                        old(self)@[p.0].tasks[p.1],
                        content.deep_view(),
                        description.deep_view(),
                        due_date.deep_view(),
                        labels.deep_view(),
                    ),
                ),
                None => r == Err::<(), BoardError>(BoardError::TaskNotFound) && final(self)@ == old(
                    self,
                )@,
            },
    {
        let ghost gc = content.deep_view();
        let ghost gd = description.deep_view();
        let ghost gdd = due_date.deep_view();
        let ghost gl = labels.deep_view();
        match self.locate_task(task_id) {
            Some((ci, ti)) => {
                let ghost oldt = self@[ci as int].tasks[ti as int];
                let mut t = self.extract_task(ci, ti);
                match content {
                    Some(c) => t.content = c,
                    None => {},
                }
                match description {
                    Some(d) => t.description = Some(d),
                    None => {},
                }
                match due_date {
                    Some(dd) => t.due_date = Some(dd),
                    None => {},
                }
                match labels {
                    Some(l) => t.labels = l,
                    None => {},
                }
                proof {
                    assert(t@ =~~= update_details_spec(oldt, gc, gd, gdd, gl));
                }
                self.place_task(ci, ti, t);
                proof {
                    lemma_extract_place(
                        old(self)@,
                        ci as int,
                        ti as int,
                        update_details_spec(oldt, gc, gd, gdd, gl),
                    );
                }
                Ok(())
            },
            None => Err(BoardError::TaskNotFound),
        }
    }

    /// Appends a comment with the given identifier, timestamp, and content
    /// and the fixed author to the first task whose identifier is
    /// `task_id`; fails with `TaskNotFound`, leaving the board unchanged,
    /// exactly when no task carries that identifier.
    pub fn add_comment_with_id(
        &mut self,
        task_id: &String,
        comment_id: String,
        created_at: String,
        content: String,
    ) -> (r: Result<(), BoardError>)
        ensures
            match find_task(old(self)@, task_id@) {
                Some(p) => r == Ok::<(), BoardError>(()) && final(self)@ == set_task_spec(
                    old(self)@,
                    p.0,
                    p.1,
                    with_comment(
                        old(self)@[p.0].tasks[p.1],
                        CommentView {
                            id: comment_id@,
                            author: "User"@,
                            content: content@,
                            created_at: created_at@,
                        },
                    ),
                ),
                None => r == Err::<(), BoardError>(BoardError::TaskNotFound) && final(self)@ == old(
                    self,
                )@,
            },
    {
        let ghost gcv = CommentView {
            id: comment_id@,
            author: "User"@,
            content: content@,
            created_at: created_at@,
        };
        match self.locate_task(task_id) {
            Some((ci, ti)) => {
                let ghost oldt = self@[ci as int].tasks[ti as int];
                let mut t = self.extract_task(ci, ti);
                t.comments.push(
                    Comment { id: comment_id, author: "User".to_owned(), content, created_at },
                );
                proof {
                    assert(t@ =~~= with_comment(oldt, gcv));
                }
                self.place_task(ci, ti, t);
                proof {
                    lemma_extract_place(old(self)@, ci as int, ti as int, with_comment(oldt, gcv));
                }
                Ok(())
            },
            None => Err(BoardError::TaskNotFound),
        }
    }

    /// Appends a comment with a generated identifier, the current time,
    /// the fixed author, and the given content to the first task whose
    /// identifier is `task_id`; fails with `TaskNotFound`, leaving the
    /// board unchanged, exactly when no task carries that identifier.
    pub fn add_comment(&mut self, task_id: &String, content: String) -> (r: Result<
        (),
        BoardError,
    >)
        ensures
            match find_task(old(self)@, task_id@) {
                Some(p) => r == Ok::<(), BoardError>(()) && added_comment_ok(
                    old(self)@,
                    final(self)@,
                    p.0,
                    p.1,
                    content@,
                ),
                None => r == Err::<(), BoardError>(BoardError::TaskNotFound) && final(self)@ == old(
                    self,
                )@,
            },
    {
        let id = fresh_id();
        let ghost gid = id@;
        let created_at = now_rfc3339();
        let ghost gts = created_at@;
        let ghost gcontent = content@;
        let r = self.add_comment_with_id(task_id, id, created_at, content);
        proof {
            match find_task(old(self)@, task_id@) {
                Some(p) => {
                    lemma_find_task_props(old(self)@, task_id@);
                    let oldt = old(self)@[p.0].tasks[p.1];
                    let gcv = CommentView {
                        id: gid,
                        author: "User"@,
                        content: gcontent,
                        created_at: gts,
                    };
                    assert(self@[p.0].tasks[p.1] == with_comment(oldt, gcv));
                    assert(self@[p.0].tasks[p.1].comments.last() == gcv);
                },
                None => {},
            }
        }
        r
    }

    /// Appends an attachment with the given identifier and metadata to the
    /// first task whose identifier is `task_id`; fails with
    /// `TaskNotFound`, leaving the board unchanged, exactly when no task
    /// carries that identifier.
    pub fn add_attachment_with_id(
        &mut self,
        task_id: &String,
        attachment_id: String,
        file_path: String,
        file_name: String,
        mime_type: String,
    ) -> (r: Result<(), BoardError>)
        ensures
            match find_task(old(self)@, task_id@) {
                Some(p) => r == Ok::<(), BoardError>(()) && final(self)@ == set_task_spec(
                    old(self)@,
                    p.0,
                    p.1,
                    with_attachment(
                        old(self)@[p.0].tasks[p.1],
                        AttachmentView {
                            id: attachment_id@,
                            file_name: file_name@,
                            file_path: file_path@,
                            mime_type: mime_type@,
                        },
                    ),
                ),
                None => r == Err::<(), BoardError>(BoardError::TaskNotFound) && final(self)@ == old(
                    self,
                )@,
            },
    {
        let ghost gav = AttachmentView {
            id: attachment_id@,
            file_name: file_name@,
            file_path: file_path@,
            mime_type: mime_type@,
        };
        match self.locate_task(task_id) {
            Some((ci, ti)) => {
                let ghost oldt = self@[ci as int].tasks[ti as int];
                let mut t = self.extract_task(ci, ti);
                t.attachments.push(Attachment { id: attachment_id, file_name, file_path, mime_type });
                proof {
                    assert(t@ =~~= with_attachment(oldt, gav));
                }
                self.place_task(ci, ti, t);
                proof {
                    lemma_extract_place(old(self)@, ci as int, ti as int, with_attachment(oldt, gav));
                }
                Ok(())
            },
            None => Err(BoardError::TaskNotFound),
        }
    }

    /// Appends an attachment with a generated identifier and the given
    /// metadata to the first task whose identifier is `task_id`; fails
    /// with `TaskNotFound`, leaving the board unchanged, exactly when no
    /// task carries that identifier.
    pub fn add_attachment(
        &mut self,
        task_id: &String,
        file_path: String,
        file_name: String,
        mime_type: String,
    ) -> (r: Result<(), BoardError>)
        ensures
            match find_task(old(self)@, task_id@) {
                Some(p) => r == Ok::<(), BoardError>(()) && added_attachment_ok(
                    old(self)@,
                    final(self)@,
                    p.0,
                    p.1,
                    file_name@,
                    file_path@,
                    mime_type@,
                ),
                None => r == Err::<(), BoardError>(BoardError::TaskNotFound) && final(self)@ == old(
                    self,
                )@,
            },
    {
        let id = fresh_id();
        let ghost gid = id@;
        let ghost gfn = file_name@;
        let ghost gfp = file_path@;
        let ghost gmt = mime_type@;
        let r = self.add_attachment_with_id(task_id, id, file_path, file_name, mime_type);
        proof {
            match find_task(old(self)@, task_id@) {
                Some(p) => {
                    lemma_find_task_props(old(self)@, task_id@);
                    let oldt = old(self)@[p.0].tasks[p.1];
                    let gav = AttachmentView {
                        id: gid,
                        file_name: gfn,
                        file_path: gfp,
                        mime_type: gmt,
                    };
                    assert(self@[p.0].tasks[p.1] == with_attachment(oldt, gav));
                    assert(self@[p.0].tasks[p.1].attachments.last() == gav);
                },
                None => {},
            }
        }
        r
    }

    /// Moves the task at `source_index` of the column whose identifier is
    /// `source_col_id` to `dest_index` (clamped to append) of the column
    /// whose identifier is `dest_col_id`, as one atomic remove-then-insert.
    /// Within one column the destination index counts positions of the
    /// sequence with the task already removed. Fails with `ColumnNotFound`
    /// when either column is missing and with `IndexOutOfBounds` when
    /// `source_index` is out of range; on failure the board is unchanged.
    pub fn move_task(
        &mut self,
        source_col_id: &String,
        dest_col_id: &String,
        source_index: usize,
        dest_index: usize,
    ) -> (r: Result<(), BoardError>)
        ensures
            match (find_col(old(self)@, source_col_id@), find_col(old(self)@, dest_col_id@)) {
                (Some(si), Some(di)) => {
                    if source_index < old(self)@[si].tasks.len() {
                        r == Ok::<(), BoardError>(()) && final(self)@ == move_task_spec(
                            old(self)@,
                            si,
                            di,
                            source_index as int,
                            dest_index as int,
                        )
                    } else {
                        r == Err::<(), BoardError>(BoardError::IndexOutOfBounds) && final(self)@
                            == old(self)@
                    }
                },
                _ => r == Err::<(), BoardError>(BoardError::ColumnNotFound) && final(self)@ == old(
                    self,
                )@,
            },
    {
        let src = match self.find_column_index(source_col_id) {
            Some(s) => s,
            None => {
                return Err(BoardError::ColumnNotFound);
            },
        };
        let dst = match self.find_column_index(dest_col_id) {
            Some(d) => d,
            None => {
                return Err(BoardError::ColumnNotFound);
            },
        };
        if source_index >= self.columns[src].tasks.len() {
            return Err(BoardError::IndexOutOfBounds);
        }
        let ghost gsi = src as int;
        let ghost gdi = dst as int;
        let t = self.extract_task(src, source_index);
        proof {
            assert(self@.len() == old(self)@.len());
            assert(self.columns@.len() == self@.len());
            assert(self@[gdi].tasks.len() == self.columns@[gdi].tasks@.len());
            if gsi == gdi {
                assert(self@[gdi].tasks == old(self)@[gsi].tasks.remove(source_index as int));
            } else {
                assert(self@[gdi].tasks == old(self)@[gdi].tasks);
            }
        }
        let dlen = self.columns[dst].tasks.len();
        let ins = if dest_index > dlen { dlen } else { dest_index };
        proof {
            assert(ins as int == clamp_index(dest_index as int, self@[gdi].tasks.len() as int));
        }
        self.place_task(dst, ins, t);
        proof {
            assert(self@ =~= move_task_spec(
                old(self)@,
                gsi,
                gdi,
                source_index as int,
                dest_index as int,
            ));
        }
        Ok(())
    }

    /// Removes every task whose identifier is `task_id` from every column;
    /// a missing identifier is a tolerated no-op, not an error.
    pub fn delete_task(&mut self, task_id: &String)
        ensures
            final(self)@ == delete_task_spec(old(self)@, task_id@),
    {
        let n = self.columns.len();
        let mut i: usize = 0;
        while i < n
            invariant
                n == self.columns@.len(),
                self@.len() == old(self)@.len() == n,
                0 <= i <= n,
                forall|k: int| 0 <= k < i ==> self@[k] == strip_task(old(self)@[k], task_id@),
                forall|k: int| i <= k < n ==> self@[k] == old(self)@[k],
            decreases n - i,
        {
            let ghost prev = self@;
            let mut col = self.columns.remove(i);
            proof {
                assert(prev[i as int] == old(self)@[i as int]);
            }
            strip_tasks_in_column(&mut col, task_id);
            let ghost cv = col@;
            self.columns.insert(i, col);
            proof {
                assert(cv == strip_task(old(self)@[i as int], task_id@));
                assert(self@ =~~= prev.update(i as int, cv));
            }
            i += 1;
        }
        proof {
            assert(self@ =~= delete_task_spec(old(self)@, task_id@));
        }
    }
}

/// Removes every task whose identifier is `task_id` from one column.
fn strip_tasks_in_column(col: &mut Column, task_id: &String)
    ensures
        final(col)@ == strip_task(old(col)@, task_id@),
{
    let ghost otasks = old(col)@.tasks;
    let ghost olen = otasks.len();
    let mut i: usize = 0;
    let ghost mut j: int = 0;
    proof {
        reveal(Seq::filter);
        assert(keep_tasks(otasks.subrange(0, 0), task_id@).len() == 0);
        assert(col@.tasks =~= keep_tasks(otasks.subrange(0, 0), task_id@) + otasks.subrange(
            0,
            olen as int,
        ));
    }
    while i < col.tasks.len()
        invariant
            0 <= j <= olen,
            olen == otasks.len(),
            otasks == old(col)@.tasks,
            col@.id == old(col)@.id,
            col@.title == old(col)@.title,
            i as int == keep_tasks(otasks.subrange(0, j), task_id@).len(),
            col@.tasks == keep_tasks(otasks.subrange(0, j), task_id@) + otasks.subrange(
                j,
                olen as int,
            ),
        decreases olen - j,
    {
        proof {
            reveal(Seq::filter);
            assert(col@.tasks.len() == i + (olen - j));
            assert(j < olen);
            assert(otasks.subrange(0, j + 1).drop_last() =~= otasks.subrange(0, j));
            assert(otasks.subrange(0, j + 1).last() == otasks[j]);
            assert(col@.tasks[i as int] == otasks.subrange(j, olen as int)[0]);
            assert(col@.tasks[i as int] == otasks[j]);
        }
        if col.tasks[i].id == *task_id {
            proof {
                assert(col@.tasks[i as int].id == col.tasks@[i as int].id@);
                assert(otasks[j].id == task_id@);
            }
            let ghost before = col@.tasks;
            col.tasks.remove(i);
            proof {
                reveal(Seq::filter);
                assert(col@.tasks =~~= before.remove(i as int));
                assert(keep_tasks(otasks.subrange(0, j + 1), task_id@) == keep_tasks(
                    otasks.subrange(0, j),
                    task_id@,
                ));
                assert(col@.tasks =~= keep_tasks(otasks.subrange(0, j + 1), task_id@)
                    + otasks.subrange(j + 1, olen as int));
            }
        } else {
            proof {
                reveal(Seq::filter);
                assert(col@.tasks[i as int].id == col.tasks@[i as int].id@);
                assert(otasks[j].id != task_id@);
                assert(keep_tasks(otasks.subrange(0, j + 1), task_id@) == keep_tasks(
                    otasks.subrange(0, j),
                    task_id@,
                ).push(otasks[j]));
                assert(col@.tasks =~= keep_tasks(otasks.subrange(0, j + 1), task_id@)
                    + otasks.subrange(j + 1, olen as int));
            }
            i += 1;
        }
        proof {
            j = j + 1;
        }
    }
    proof {
        assert(col@.tasks.len() == i + (olen - j));
        assert(i as int == col@.tasks.len());
        assert(j == olen);
        assert(otasks.subrange(0, olen as int) =~= otasks);
        assert(col@.tasks =~= keep_tasks(otasks, task_id@));
        assert(col@ =~= strip_task(old(col)@, task_id@));
    }
}

/// Taking a task out at one position and putting another back at the same
/// position replaces the task in place.
pub proof fn lemma_extract_place(cols: Seq<ColumnView>, ci: int, ti: int, t2: TaskView)
    requires
        0 <= ci < cols.len(),
        0 <= ti < cols[ci].tasks.len(),
    ensures
        ({
            let mid = cols.update(ci, with_tasks(cols[ci], cols[ci].tasks.remove(ti)));
            mid.update(ci, with_tasks(mid[ci], mid[ci].tasks.insert(ti, t2))) == set_task_spec(
                cols,
                ci,
                ti,
                t2,
            )
        }),
{
    let mid = cols.update(ci, with_tasks(cols[ci], cols[ci].tasks.remove(ti)));
    lemma_remove_insert(cols[ci].tasks, ti, t2);
    assert(mid[ci].tasks.insert(ti, t2) == cols[ci].tasks.update(ti, t2));
    assert(mid.update(ci, with_tasks(mid[ci], mid[ci].tasks.insert(ti, t2))) =~= set_task_spec(
        cols,
        ci,
        ti,
        t2,
    ));
}

} // verus!
