//! The board data model: comments, attachments, tasks, columns, and the
//! board itself, together with the mathematical views that the contracts
//! of the mutation operations speak of.

use vstd::prelude::*;

verus! {

/// A note appended to a task. Comments are append-only: no operation
/// updates or deletes one.
#[derive(Clone, Debug, PartialEq, Eq)]
pub struct Comment {
    pub id: String,
    pub author: String,
    pub content: String,
    pub created_at: String,
}

/// File metadata appended to a task. The engine never touches the file's
/// bytes; the path is an opaque string owned by an outside collaborator.
#[derive(Clone, Debug, PartialEq, Eq)]
pub struct Attachment {
    pub id: String,
    pub file_name: String,
    pub file_path: String,
    pub mime_type: String,
}

/// The unit of work tracked on the board.
#[derive(Clone, Debug, PartialEq, Eq)]
pub struct Task {
    pub id: String,
    pub content: String,
    pub description: Option<String>,
    pub due_date: Option<String>,
    pub labels: Vec<String>,
    pub comments: Vec<Comment>,
    pub attachments: Vec<Attachment>,
}

/// A named, ordered bucket of tasks.
#[derive(Clone, Debug, PartialEq, Eq)]
pub struct Column {
    pub id: String,
    pub title: String,
    pub tasks: Vec<Task>,
}

/// The full board: an ordered sequence of columns.
#[derive(Clone, Debug, PartialEq, Eq)]
pub struct Board {
    pub columns: Vec<Column>,
}

/// Why a mutation was rejected. All three are caller-input errors; no
/// operation panics on malformed input.
#[derive(Clone, Copy, Debug, PartialEq, Eq, Structural)]
pub enum BoardError {
    ColumnNotFound,
    TaskNotFound,
    IndexOutOfBounds,
}

/// Mathematical value of a [`Comment`].
#[verifier::ext_equal]
pub ghost struct CommentView {
    pub id: Seq<char>,
    pub author: Seq<char>,
    pub content: Seq<char>,
    pub created_at: Seq<char>,
}

/// Mathematical value of an [`Attachment`].
#[verifier::ext_equal]
pub ghost struct AttachmentView {
    pub id: Seq<char>,
    pub file_name: Seq<char>,
    pub file_path: Seq<char>,
    pub mime_type: Seq<char>,
}

/// Mathematical value of a [`Task`].
#[verifier::ext_equal]
pub ghost struct TaskView {
    pub id: Seq<char>,
    pub content: Seq<char>,
    pub description: Option<Seq<char>>,
    pub due_date: Option<Seq<char>>,
    pub labels: Seq<Seq<char>>,
    pub comments: Seq<CommentView>,
    pub attachments: Seq<AttachmentView>,
}

/// Mathematical value of a [`Column`].
#[verifier::ext_equal]
pub ghost struct ColumnView {
    pub id: Seq<char>,
    pub title: Seq<char>,
    pub tasks: Seq<TaskView>,
}

impl View for Comment {
    type V = CommentView;

    open spec fn view(&self) -> CommentView {
        CommentView {
            id: self.id@,
            author: self.author@,
            content: self.content@,
            created_at: self.created_at@,
        }
    }
}

impl DeepView for Comment {
    type V = CommentView;

    open spec fn deep_view(&self) -> CommentView {
        self@
    }
}

impl View for Attachment {
    type V = AttachmentView;

    open spec fn view(&self) -> AttachmentView {
        AttachmentView {
            id: self.id@,
            file_name: self.file_name@,
            file_path: self.file_path@,
            mime_type: self.mime_type@,
        }
    }
}

impl DeepView for Attachment {
    type V = AttachmentView;

    open spec fn deep_view(&self) -> AttachmentView {
        self@
    }
}

impl View for Task {
    type V = TaskView;

    open spec fn view(&self) -> TaskView {
        TaskView {
            id: self.id@,
            content: self.content@,
            description: self.description.deep_view(),
            due_date: self.due_date.deep_view(),
            labels: self.labels.deep_view(),
            comments: self.comments.deep_view(),
            attachments: self.attachments.deep_view(),
        }
    }
}

impl DeepView for Task {
    type V = TaskView;

    open spec fn deep_view(&self) -> TaskView {
        self@
    }
}

impl View for Column {
    type V = ColumnView;

    open spec fn view(&self) -> ColumnView {
        ColumnView { id: self.id@, title: self.title@, tasks: self.tasks.deep_view() }
    }
}

impl DeepView for Column {
    type V = ColumnView;

    open spec fn deep_view(&self) -> ColumnView {
        self@
    }
}

impl View for Board {
    type V = Seq<ColumnView>;

    open spec fn view(&self) -> Seq<ColumnView> {
        self.columns.deep_view()
    }
}

/// The column sequence a fresh board starts from when no usable snapshot
/// exists: To Do, Doing, Done, all empty.
pub open spec fn default_columns() -> Seq<ColumnView> {
    seq![
        ColumnView { id: "todo"@, title: "To Do"@, tasks: Seq::empty() },
        ColumnView { id: "doing"@, title: "Doing"@, tasks: Seq::empty() },
        ColumnView { id: "done"@, title: "Done"@, tasks: Seq::empty() },
    ]
}

impl Board {
    /// The default board of three empty columns.
    pub fn new() -> (b: Board)
        ensures
            b@ == default_columns(),
    {
        let columns = vec![
            Column { id: "todo".to_owned(), title: "To Do".to_owned(), tasks: Vec::new() },
            Column { id: "doing".to_owned(), title: "Doing".to_owned(), tasks: Vec::new() },
            Column { id: "done".to_owned(), title: "Done".to_owned(), tasks: Vec::new() },
        ];
        let b = Board { columns };
        proof {
            assert(b@ =~~= default_columns());
        }
        b
    }

    /// A copy of the whole board, equal to it in every column, task, and
    /// nested collection. This is what a read command hands back to a
    /// caller: the caller's copy and the stored board never share state.
    pub fn snapshot(&self) -> (b: Board)
        ensures
            b@ == self@,
    {
        let columns = clone_columns(&self.columns);
        Board { columns }
    }
}

/// An owned copy of an optional string.
fn clone_opt_string(o: &Option<String>) -> (r: Option<String>)
    ensures
        r.deep_view() == o.deep_view(),
{
    match o {
        Some(v) => Some(v.clone()),
        None => None,
    }
}

/// An owned copy of a label list.
fn clone_labels(v: &Vec<String>) -> (r: Vec<String>)
    ensures
        r.deep_view() == v.deep_view(),
{
    let mut r: Vec<String> = Vec::new();
    let n = v.len();
    let mut i: usize = 0;
    while i < n
        invariant
            n == v@.len(),
            0 <= i <= n,
            r.deep_view() =~= v.deep_view().subrange(0, i as int),
        decreases n - i,
    {
        let c = v[i].clone();
        let ghost gc = c@;
        let ghost prev = r.deep_view();
        r.push(c);
        proof {
            assert(r.deep_view() =~= prev.push(gc));
            assert(gc == v.deep_view()[i as int]);
        }
        proof {
            assert(r.deep_view() =~= v.deep_view().subrange(0, i + 1));
        }
        i += 1;
    }
    proof {
        assert(v.deep_view().subrange(0, n as int) =~= v.deep_view());
    }
    r
}

/// An owned copy of one comment.
fn clone_comment(c: &Comment) -> (r: Comment)
    ensures
        r@ == c@,
{
    Comment {
        id: c.id.clone(),
        author: c.author.clone(),
        content: c.content.clone(),
        created_at: c.created_at.clone(),
    }
}

/// An owned copy of a comment list.
fn clone_comments(v: &Vec<Comment>) -> (r: Vec<Comment>)
    ensures
        r.deep_view() == v.deep_view(),
{
    let mut r: Vec<Comment> = Vec::new();
    let n = v.len();
    let mut i: usize = 0;
    while i < n
        invariant
            n == v@.len(),
            0 <= i <= n,
            r.deep_view() =~= v.deep_view().subrange(0, i as int),
        decreases n - i,
    {
        let c = clone_comment(&v[i]);
        let ghost gc = c@;
        let ghost prev = r.deep_view();
        r.push(c);
        proof {
            assert(r.deep_view() =~= prev.push(gc));
            assert(gc == v.deep_view()[i as int]);
        }
        proof {
            assert(r.deep_view() =~= v.deep_view().subrange(0, i + 1));
        }
        i += 1;
    }
    proof {
        assert(v.deep_view().subrange(0, n as int) =~= v.deep_view());
    }
    r
}

/// An owned copy of one attachment.
fn clone_attachment(a: &Attachment) -> (r: Attachment)
    ensures
        r@ == a@,
{
    Attachment {
        id: a.id.clone(),
        file_name: a.file_name.clone(),
        file_path: a.file_path.clone(),
        mime_type: a.mime_type.clone(),
    }
}

/// An owned copy of an attachment list.
fn clone_attachments(v: &Vec<Attachment>) -> (r: Vec<Attachment>)
    ensures
        r.deep_view() == v.deep_view(),
{
    let mut r: Vec<Attachment> = Vec::new();
    let n = v.len();
    let mut i: usize = 0;
    while i < n
        invariant
            n == v@.len(),
            0 <= i <= n,
            r.deep_view() =~= v.deep_view().subrange(0, i as int),
        decreases n - i,
    {
        let c = clone_attachment(&v[i]);
        let ghost gc = c@;
        let ghost prev = r.deep_view();
        r.push(c);
        proof {
            assert(r.deep_view() =~= prev.push(gc));
            assert(gc == v.deep_view()[i as int]);
        }
        proof {
            assert(r.deep_view() =~= v.deep_view().subrange(0, i + 1));
        }
        i += 1;
    }
    proof {
        assert(v.deep_view().subrange(0, n as int) =~= v.deep_view());
    }
    r
}

/// An owned copy of one task.
fn clone_task(t: &Task) -> (r: Task)
    ensures
        r@ == t@,
{
    let r = Task {
        id: t.id.clone(),
        content: t.content.clone(),
        description: clone_opt_string(&t.description),
        due_date: clone_opt_string(&t.due_date),
        labels: clone_labels(&t.labels),
        comments: clone_comments(&t.comments),
        attachments: clone_attachments(&t.attachments),
    };
    proof {
        assert(r@ =~~= t@);
    }
    r
}

/// An owned copy of a task list.
fn clone_tasks(v: &Vec<Task>) -> (r: Vec<Task>)
    ensures
        r.deep_view() == v.deep_view(),
{
    let mut r: Vec<Task> = Vec::new();
    let n = v.len();
    let mut i: usize = 0;
    while i < n
        invariant
            n == v@.len(),
            0 <= i <= n,
            r.deep_view() =~= v.deep_view().subrange(0, i as int),
        decreases n - i,
    {
        let c = clone_task(&v[i]);
        let ghost gc = c@;
        let ghost prev = r.deep_view();
        r.push(c);
        proof {
            assert(r.deep_view() =~= prev.push(gc));
            assert(gc == v.deep_view()[i as int]);
        }
        proof {
            assert(r.deep_view() =~= v.deep_view().subrange(0, i + 1));
        }
        i += 1;
    }
    proof {
        assert(v.deep_view().subrange(0, n as int) =~= v.deep_view());
    }
    r
}

/// An owned copy of one column.
fn clone_column(c: &Column) -> (r: Column)
    ensures
        r@ == c@,
{
    let r = Column { id: c.id.clone(), title: c.title.clone(), tasks: clone_tasks(&c.tasks) };
    proof {
        assert(r@ =~~= c@);
    }
    r
}

/// An owned copy of a column list.
fn clone_columns(v: &Vec<Column>) -> (r: Vec<Column>)
    ensures
        r.deep_view() == v.deep_view(),
{
    let mut r: Vec<Column> = Vec::new();
    let n = v.len();
    let mut i: usize = 0;
    while i < n
        invariant
            n == v@.len(),
            0 <= i <= n,
            r.deep_view() =~= v.deep_view().subrange(0, i as int),
        decreases n - i,
    {
        let c = clone_column(&v[i]);
        let ghost gc = c@;
        let ghost prev = r.deep_view();
        r.push(c);
        proof {
            assert(r.deep_view() =~= prev.push(gc));
            assert(gc == v.deep_view()[i as int]);
        }
        proof {
            assert(r.deep_view() =~= v.deep_view().subrange(0, i + 1));
        }
        i += 1;
    }
    proof {
        assert(v.deep_view().subrange(0, n as int) =~= v.deep_view());
    }
    r
}

} // verus!
