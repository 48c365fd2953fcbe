//! The persistence snapshot format: a length-prefixed structured text
//! rendering of the whole board, with a verified encoder and decoder and a
//! proof that decoding an encoded board yields the board back.
//!
//! Every string is written as its decimal character count, a colon, and
//! the characters themselves; options carry a one-character tag; sequences
//! are written as their count followed by their elements. The decoder is
//! strict: it accepts exactly what the encoder writes, and a malformed
//! snapshot is reported as `None` so the caller can fall back to a default
//! board.

use vstd::prelude::*;
use vstd::string::*;

use crate::board::Attachment;
use crate::board::AttachmentView;
use crate::board::Board;
use crate::board::Column;
use crate::board::ColumnView;
use crate::board::Comment;
use crate::board::CommentView;
use crate::board::Task;
use crate::board::TaskView;

verus! {

/// Whether `c` is a decimal digit.
pub open spec fn is_digit(c: char) -> bool {
    c == '0' || c == '1' || c == '2' || c == '3' || c == '4' || c == '5' || c == '6' || c == '7'
        || c == '8' || c == '9'
}

/// The value of a digit character.
pub open spec fn digit_val(c: char) -> nat {
    if c == '0' {
        0
    } else if c == '1' {
        1
    } else if c == '2' {
        2
    } else if c == '3' {
        3
    } else if c == '4' {
        4
    } else if c == '5' {
        5
    } else if c == '6' {
        6
    } else if c == '7' {
        7
    } else if c == '8' {
        8
    } else {
        9
    }
}

/// The digit character of a value below ten.
pub open spec fn digit_char(d: nat) -> char {
    if d == 0 {
        '0'
    } else if d == 1 {
        '1'
    } else if d == 2 {
        '2'
    } else if d == 3 {
        '3'
    } else if d == 4 {
        '4'
    } else if d == 5 {
        '5'
    } else if d == 6 {
        '6'
    } else if d == 7 {
        '7'
    } else if d == 8 {
        '8'
    } else {
        '9'
    }
}

/// The decimal digits of `n`, most significant first.
pub open spec fn dec_digits(n: nat) -> Seq<char>
    decreases n,
{
    if n < 10 {
        seq![digit_char(n)]
    } else {
        dec_digits(n / 10).push(digit_char(n % 10))
    }
}

/// How many leading characters of `s` are digits.
pub open spec fn digit_run_len(s: Seq<char>) -> nat
    decreases s.len(),
{
    if s.len() == 0 || !is_digit(s[0]) {
        0
    } else {
        1 + digit_run_len(s.drop_first())
    }
}

/// The value of a sequence of digit characters, most significant first.
pub open spec fn num_of_digits(s: Seq<char>) -> nat
    decreases s.len(),
{
    if s.len() == 0 {
        0
    } else {
        num_of_digits(s.drop_last()) * 10 + digit_val(s.last())
    }
}

/// A length header: decimal digits then a colon. Fails on no digits, a
/// missing colon, or a value that does not fit in `usize`.
pub open spec fn parse_len(s: Seq<char>) -> Option<(nat, Seq<char>)> {
    let k = digit_run_len(s);
    if k == 0 {
        None
    } else if k >= s.len() {
        None
    } else if s[k as int] != ':' {
        None
    } else if num_of_digits(s.subrange(0, k as int)) > usize::MAX {
        None
    } else {
        Some((num_of_digits(s.subrange(0, k as int)), s.subrange(k as int + 1, s.len() as int)))
    }
}

/// A string rendered as its length header followed by its characters.
pub open spec fn enc_str(s: Seq<char>) -> Seq<char> {
    dec_digits(s.len()) + seq![':'] + s
}

/// Inverse of `enc_str` on the front of `s`.
pub open spec fn parse_str(s: Seq<char>) -> Option<(Seq<char>, Seq<char>)> {
    match parse_len(s) {
        None => None,
        Some((n, rest)) => if rest.len() < n {
            None
        } else {
            Some((rest.subrange(0, n as int), rest.subrange(n as int, rest.len() as int)))
        },
    }
}

/// An optional string: the tag `n` alone, or the tag `s` and the string.
pub open spec fn enc_opt(o: Option<Seq<char>>) -> Seq<char> {
    match o {
        None => seq!['n'],
        Some(v) => seq!['s'] + enc_str(v),
    }
}

/// Inverse of `enc_opt` on the front of `s`.
pub open spec fn parse_opt(s: Seq<char>) -> Option<(Option<Seq<char>>, Seq<char>)> {
    if s.len() == 0 {
        None
    } else if s[0] == 'n' {
        Some((None, s.drop_first()))
    } else if s[0] == 's' {
        match parse_str(s.drop_first()) {
            None => None,
            Some((v, rest)) => Some((Some(v), rest)),
        }
    } else {
        None
    }
}

/// A comment: its four strings in order.
#[verifier::opaque]
pub open spec fn enc_comment(c: CommentView) -> Seq<char> {
    enc_str(c.id) + enc_str(c.author) + enc_str(c.content) + enc_str(c.created_at)
}

/// Inverse of `enc_comment` on the front of `s`.
#[verifier::opaque]
pub open spec fn parse_comment(s: Seq<char>) -> Option<(CommentView, Seq<char>)> {
    match parse_str(s) {
        None => None,
        Some((id, s1)) => match parse_str(s1) {
            None => None,
            Some((author, s2)) => match parse_str(s2) {
                None => None,
                Some((content, s3)) => match parse_str(s3) {
                    None => None,
                    Some((created_at, s4)) => Some(
                        (CommentView { id, author, content, created_at }, s4),
                    ),
                },
            },
        },
    }
}

/// An attachment: its four strings in order.
#[verifier::opaque]
pub open spec fn enc_attachment(a: AttachmentView) -> Seq<char> {
    enc_str(a.id) + enc_str(a.file_name) + enc_str(a.file_path) + enc_str(a.mime_type)
}

/// Inverse of `enc_attachment` on the front of `s`.
#[verifier::opaque]
pub open spec fn parse_attachment(s: Seq<char>) -> Option<(AttachmentView, Seq<char>)> {
    match parse_str(s) {
        None => None,
        Some((id, s1)) => match parse_str(s1) {
            None => None,
            Some((file_name, s2)) => match parse_str(s2) {
                None => None,
                Some((file_path, s3)) => match parse_str(s3) {
                    None => None,
                    Some((mime_type, s4)) => Some(
                        (AttachmentView { id, file_name, file_path, mime_type }, s4),
                    ),
                },
            },
        },
    }
}

/// Label strings, one after the other.
pub open spec fn enc_label_items(items: Seq<Seq<char>>) -> Seq<char>
    decreases items.len(),
{
    if items.len() == 0 {
        Seq::empty()
    } else {
        enc_str(items.first()) + enc_label_items(items.drop_first())
    }
}

/// Exactly `n` label strings from the front of `s`.
pub open spec fn parse_label_items(s: Seq<char>, n: nat) -> Option<(Seq<Seq<char>>, Seq<char>)>
    decreases n,
{
    if n == 0 {
        Some((Seq::empty(), s))
    } else {
        match parse_str(s) {
            None => None,
            Some((v, rest)) => match parse_label_items(rest, (n - 1) as nat) {
                None => None,
                Some((vs, rest2)) => Some((seq![v] + vs, rest2)),
            },
        }
    }
}

/// Comments, one after the other.
pub open spec fn enc_comment_items(items: Seq<CommentView>) -> Seq<char>
    decreases items.len(),
{
    if items.len() == 0 {
        Seq::empty()
    } else {
        enc_comment(items.first()) + enc_comment_items(items.drop_first())
    }
}

/// Exactly `n` comments from the front of `s`.
pub open spec fn parse_comment_items(s: Seq<char>, n: nat) -> Option<(Seq<CommentView>, Seq<char>)>
    decreases n,
{
    if n == 0 {
        Some((Seq::empty(), s))
    } else {
        match parse_comment(s) {
            None => None,
            Some((v, rest)) => match parse_comment_items(rest, (n - 1) as nat) {
                None => None,
                Some((vs, rest2)) => Some((seq![v] + vs, rest2)),
            },
        }
    }
}

/// Attachments, one after the other.
pub open spec fn enc_attachment_items(items: Seq<AttachmentView>) -> Seq<char>
    decreases items.len(),
{
    if items.len() == 0 {
        Seq::empty()
    } else {
        enc_attachment(items.first()) + enc_attachment_items(items.drop_first())
    }
}

/// Exactly `n` attachments from the front of `s`.
pub open spec fn parse_attachment_items(s: Seq<char>, n: nat) -> Option<
    (Seq<AttachmentView>, Seq<char>),
>
    decreases n,
{
    if n == 0 {
        Some((Seq::empty(), s))
    } else {
        match parse_attachment(s) {
            None => None,
            Some((v, rest)) => match parse_attachment_items(rest, (n - 1) as nat) {
                None => None,
                Some((vs, rest2)) => Some((seq![v] + vs, rest2)),
            },
        }
    }
}

/// A task: its strings, options, and counted nested sequences in order.
#[verifier::opaque]
pub open spec fn enc_task(t: TaskView) -> Seq<char> {
    enc_str(t.id) + enc_str(t.content) + enc_opt(t.description) + enc_opt(t.due_date) + dec_digits(
        t.labels.len(),
    ) + seq![':'] + enc_label_items(t.labels) + dec_digits(t.comments.len()) + seq![':']
        + enc_comment_items(t.comments) + dec_digits(t.attachments.len()) + seq![':']
        + enc_attachment_items(t.attachments)
}

/// Inverse of `enc_task` on the front of `s`.
#[verifier::opaque]
pub open spec fn parse_task(s: Seq<char>) -> Option<(TaskView, Seq<char>)> {
    match parse_str(s) {
        None => None,
        Some((id, s1)) => match parse_str(s1) {
            None => None,
            Some((content, s2)) => match parse_opt(s2) {
                None => None,
                Some((description, s3)) => match parse_opt(s3) {
                    None => None,
                    Some((due_date, s4)) => match parse_len(s4) {
                        None => None,
                        Some((nl, s5)) => match parse_label_items(s5, nl) {
                            None => None,
                            Some((labels, s6)) => match parse_len(s6) {
                                None => None,
                                Some((nc, s7)) => match parse_comment_items(s7, nc) {
                                    None => None,
                                    Some((comments, s8)) => match parse_len(s8) {
                                        None => None,
                                        Some((na, s9)) => match parse_attachment_items(s9, na) {
                                            None => None,
                                            Some((attachments, s10)) => Some(
                                                (
                                                    TaskView {
                                                        id,
                                                        content,
                                                        description,
                                                        due_date,
                                                        labels,
                                                        comments,
                                                        attachments,
                                                    },
                                                    s10,
                                                ),
                                            ),
                                        },
                                    },
                                },
                            },
                        },
                    },
                },
            },
        },
    }
}

/// Tasks, one after the other.
pub open spec fn enc_task_items(items: Seq<TaskView>) -> Seq<char>
    decreases items.len(),
{
    if items.len() == 0 {
        Seq::empty()
    } else {
        enc_task(items.first()) + enc_task_items(items.drop_first())
    }
}

/// Exactly `n` tasks from the front of `s`.
pub open spec fn parse_task_items(s: Seq<char>, n: nat) -> Option<(Seq<TaskView>, Seq<char>)>
    decreases n,
{
    if n == 0 {
        Some((Seq::empty(), s))
    } else {
        match parse_task(s) {
            None => None,
            Some((v, rest)) => match parse_task_items(rest, (n - 1) as nat) {
                None => None,
                Some((vs, rest2)) => Some((seq![v] + vs, rest2)),
            },
        }
    }
}

/// A column: its two strings and its counted tasks.
#[verifier::opaque]
pub open spec fn enc_column(c: ColumnView) -> Seq<char> {
    enc_str(c.id) + enc_str(c.title) + dec_digits(c.tasks.len()) + seq![':'] + enc_task_items(
        c.tasks,
    )
}

/// Inverse of `enc_column` on the front of `s`.
#[verifier::opaque]
pub open spec fn parse_column(s: Seq<char>) -> Option<(ColumnView, Seq<char>)> {
    match parse_str(s) {
        None => None,
        Some((id, s1)) => match parse_str(s1) {
            None => None,
            Some((title, s2)) => match parse_len(s2) {
                None => None,
                Some((nt, s3)) => match parse_task_items(s3, nt) {
                    None => None,
                    Some((tasks, s4)) => Some((ColumnView { id, title, tasks }, s4)),
                },
            },
        },
    }
}

/// Columns, one after the other.
pub open spec fn enc_column_items(items: Seq<ColumnView>) -> Seq<char>
    decreases items.len(),
{
    if items.len() == 0 {
        Seq::empty()
    } else {
        enc_column(items.first()) + enc_column_items(items.drop_first())
    }
}

/// Exactly `n` columns from the front of `s`.
pub open spec fn parse_column_items(s: Seq<char>, n: nat) -> Option<(Seq<ColumnView>, Seq<char>)>
    decreases n,
{
    if n == 0 {
        Some((Seq::empty(), s))
    } else {
        match parse_column(s) {
            None => None,
            Some((v, rest)) => match parse_column_items(rest, (n - 1) as nat) {
                None => None,
                Some((vs, rest2)) => Some((seq![v] + vs, rest2)),
            },
        }
    }
}

/// The whole board: its counted columns.
pub open spec fn enc_board(cols: Seq<ColumnView>) -> Seq<char> {
    dec_digits(cols.len()) + seq![':'] + enc_column_items(cols)
}

/// Inverse of `enc_board`, demanding that nothing follows the columns.
pub open spec fn dec_board(s: Seq<char>) -> Option<Seq<ColumnView>> {
    match parse_len(s) {
        None => None,
        Some((n, rest)) => match parse_column_items(rest, n) {
            None => None,
            Some((cols, rest2)) => if rest2.len() == 0 {
                Some(cols)
            } else {
                None
            },
        },
    }
}

/// Whether a string fits the format's length header.
pub open spec fn str_ok(s: Seq<char>) -> bool {
    s.len() <= usize::MAX
}

/// Whether every string of a comment fits.
pub open spec fn comment_ok(c: CommentView) -> bool {
    str_ok(c.id) && str_ok(c.author) && str_ok(c.content) && str_ok(c.created_at)
}

/// Whether every string of an attachment fits.
pub open spec fn attachment_ok(a: AttachmentView) -> bool {
    str_ok(a.id) && str_ok(a.file_name) && str_ok(a.file_path) && str_ok(a.mime_type)
}

/// Whether every string and every count of a task fits.
pub open spec fn task_ok(t: TaskView) -> bool {
    &&& str_ok(t.id)
    &&& str_ok(t.content)
    &&& match t.description {
        Some(d) => str_ok(d),
        None => true,
    }
    &&& match t.due_date {
        Some(d) => str_ok(d),
        None => true,
    }
    &&& t.labels.len() <= usize::MAX
    &&& t.comments.len() <= usize::MAX
    &&& t.attachments.len() <= usize::MAX
    &&& (forall|i: int| 0 <= i < t.labels.len() ==> str_ok(#[trigger] t.labels[i]))
    &&& (forall|i: int| 0 <= i < t.comments.len() ==> comment_ok(#[trigger] t.comments[i]))
    &&& (forall|i: int| 0 <= i < t.attachments.len() ==> attachment_ok(#[trigger] t.attachments[i]))
}

/// Whether every string and every count of a column fits.
pub open spec fn column_ok(c: ColumnView) -> bool {
    &&& str_ok(c.id)
    &&& str_ok(c.title)
    &&& c.tasks.len() <= usize::MAX
    &&& (forall|i: int| 0 <= i < c.tasks.len() ==> task_ok(#[trigger] c.tasks[i]))
}

/// Whether every string and every count of a board fits.
pub open spec fn board_ok(cols: Seq<ColumnView>) -> bool {
    &&& cols.len() <= usize::MAX
    &&& (forall|i: int| 0 <= i < cols.len() ==> column_ok(#[trigger] cols[i]))
}

/// The decimal rendering of `n` is nonempty, consists of digits, and
/// reads back as `n`.
pub proof fn lemma_dec_digits_props(n: nat)
    ensures
        dec_digits(n).len() >= 1,
        forall|j: int| 0 <= j < dec_digits(n).len() ==> is_digit(#[trigger] dec_digits(n)[j]),
        num_of_digits(dec_digits(n)) == n,
    decreases n,
{
    let dd = dec_digits(n);
    if n < 10 {
        assert(dd.drop_last() =~= Seq::<char>::empty());
        assert(dd.len() == 1);
        assert(dd.last() == digit_char(n));
        assert(num_of_digits(dd.drop_last()) == 0);
        assert(num_of_digits(dd) == 0 * 10 + digit_val(digit_char(n)));
    } else {
        lemma_dec_digits_props(n / 10);
        assert(dd.drop_last() =~= dec_digits(n / 10));
        assert(num_of_digits(dd) == (n / 10) * 10 + digit_val(digit_char(n % 10)));
        assert(digit_val(digit_char(n % 10)) == n % 10);
        assert((n / 10) * 10 + n % 10 == n) by {
            vstd::arithmetic::div_mod::lemma_fundamental_div_mod(n as int, 10);
        }
    }
}

/// The digit run of digits followed by a non-digit is exactly the digits.
proof fn lemma_digit_run_concat(a: Seq<char>, tail: Seq<char>)
    requires
        forall|j: int| 0 <= j < a.len() ==> is_digit(#[trigger] a[j]),
        tail.len() > 0,
        !is_digit(tail[0]),
    ensures
        digit_run_len(a + tail) == a.len(),
    decreases a.len(),
{
    let s = a + tail;
    if a.len() == 0 {
        assert(s =~= tail);
    } else {
        assert(s[0] == a[0]);
        assert(s.drop_first() =~= a.drop_first() + tail);
        assert(forall|j: int|
            0 <= j < a.drop_first().len() ==> is_digit(#[trigger] a.drop_first()[j]));
        lemma_digit_run_concat(a.drop_first(), tail);
    }
}

/// A length header written by the encoder reads back as its value.
pub proof fn lemma_parse_len_round(n: nat, rest: Seq<char>)
    requires
        n <= usize::MAX,
    ensures
        parse_len(dec_digits(n) + seq![':'] + rest) == Some((n, rest)),
{
    let dd = dec_digits(n);
    let s = dd + seq![':'] + rest;
    let k = dd.len();
    lemma_dec_digits_props(n);
    assert(s =~= dd + (seq![':'] + rest));
    lemma_digit_run_concat(dd, seq![':'] + rest);
    assert(digit_run_len(s) == k);
    assert(s[k as int] == ':');
    assert(s.subrange(0, k as int) =~= dd);
    assert(s.subrange(k as int + 1, s.len() as int) =~= rest);
}

/// A string written by the encoder reads back as itself.
pub proof fn lemma_parse_str_round(v: Seq<char>, rest: Seq<char>)
    requires
        str_ok(v),
    ensures
        parse_str(enc_str(v) + rest) == Some((v, rest)),
{
    let s = enc_str(v) + rest;
    assert(s =~= dec_digits(v.len()) + seq![':'] + (v + rest));
    lemma_parse_len_round(v.len(), v + rest);
    assert((v + rest).subrange(0, v.len() as int) =~= v);
    assert((v + rest).subrange(v.len() as int, (v + rest).len() as int) =~= rest);
}

/// An optional string written by the encoder reads back as itself.
pub proof fn lemma_parse_opt_round(o: Option<Seq<char>>, rest: Seq<char>)
    requires
        match o {
            Some(v) => str_ok(v),
            None => true,
        },
    ensures
        parse_opt(enc_opt(o) + rest) == Some((o, rest)),
{
    let s = enc_opt(o) + rest;
    match o {
        None => {
            assert(s[0] == 'n');
            assert(s.drop_first() =~= rest);
        },
        Some(v) => {
            assert(s[0] == 's');
            assert(s.drop_first() =~= enc_str(v) + rest);
            lemma_parse_str_round(v, rest);
        },
    }
}

/// A comment written by the encoder reads back as itself.
pub proof fn lemma_parse_comment_round(c: CommentView, rest: Seq<char>)
    requires
        comment_ok(c),
    ensures
        parse_comment(enc_comment(c) + rest) == Some((c, rest)),
{
    reveal(enc_comment); reveal(parse_comment);
    let t3 = enc_str(c.created_at) + rest;
    let t2 = enc_str(c.content) + t3;
    let t1 = enc_str(c.author) + t2;
    assert(enc_comment(c) + rest =~= enc_str(c.id) + t1);
    lemma_parse_str_round(c.id, t1);
    lemma_parse_str_round(c.author, t2);
    lemma_parse_str_round(c.content, t3);
    lemma_parse_str_round(c.created_at, rest);
    assert(parse_comment(enc_comment(c) + rest) == Some((c, rest)));
}

/// An attachment written by the encoder reads back as itself.
pub proof fn lemma_parse_attachment_round(a: AttachmentView, rest: Seq<char>)
    requires
        attachment_ok(a),
    ensures
        parse_attachment(enc_attachment(a) + rest) == Some((a, rest)),
{
    reveal(enc_attachment); reveal(parse_attachment);
    let t3 = enc_str(a.mime_type) + rest;
    let t2 = enc_str(a.file_path) + t3;
    let t1 = enc_str(a.file_name) + t2;
    assert(enc_attachment(a) + rest =~= enc_str(a.id) + t1);
    lemma_parse_str_round(a.id, t1);
    lemma_parse_str_round(a.file_name, t2);
    lemma_parse_str_round(a.file_path, t3);
    lemma_parse_str_round(a.mime_type, rest);
    assert(parse_attachment(enc_attachment(a) + rest) == Some((a, rest)));
}

/// Encoded label strings read back as themselves.
proof fn lemma_parse_label_items_round(items: Seq<Seq<char>>, rest: Seq<char>)
    requires
        forall|i: int| 0 <= i < items.len() ==> str_ok(#[trigger] items[i]),
    ensures
        parse_label_items(enc_label_items(items) + rest, items.len()) == Some((items, rest)),
    decreases items.len(),
{
    if items.len() == 0 {
        assert(enc_label_items(items) + rest =~= rest);
        assert(items =~= Seq::<Seq<char>>::empty());
    } else {
        let d = items.drop_first();
        vstd::seq_lib::lemma_concat_associative(enc_str(items.first()), enc_label_items(d), rest);
        assert(enc_label_items(items) + rest == enc_str(items.first()) + (enc_label_items(d)
            + rest));
        lemma_parse_str_round(items.first(), enc_label_items(d) + rest);
        assert forall|i: int| 0 <= i < d.len() implies str_ok(#[trigger] d[i]) by {
            assert(d[i] == items[i + 1]);
        }
        lemma_parse_label_items_round(d, rest);
        assert(seq![items.first()] + d =~= items);
    }
}

/// Encoded comments read back as themselves.
#[verifier::rlimit(60)]
#[verifier::spinoff_prover]
proof fn lemma_parse_comment_items_round(items: Seq<CommentView>, rest: Seq<char>)
    requires
        forall|i: int| 0 <= i < items.len() ==> comment_ok(#[trigger] items[i]),
    ensures
        parse_comment_items(enc_comment_items(items) + rest, items.len()) == Some((items, rest)),
    decreases items.len(),
{
    if items.len() == 0 {
        assert(enc_comment_items(items) + rest =~= rest);
        assert(items =~= Seq::<CommentView>::empty());
    } else {
        let d = items.drop_first();
        vstd::seq_lib::lemma_concat_associative(enc_comment(items.first()), enc_comment_items(d), rest);
        assert(enc_comment_items(items) + rest == enc_comment(items.first()) + (enc_comment_items(d) + rest));
        lemma_parse_comment_round(items.first(), enc_comment_items(d) + rest);
        assert forall|i: int| 0 <= i < d.len() implies comment_ok(#[trigger] d[i]) by {
            assert(d[i] == items[i + 1]);
        }
        lemma_parse_comment_items_round(d, rest);
        assert(seq![items.first()] + d =~= items);
    }
}

/// Encoded attachments read back as themselves.
#[verifier::spinoff_prover]
proof fn lemma_parse_attachment_items_round(items: Seq<AttachmentView>, rest: Seq<char>)
    requires
        forall|i: int| 0 <= i < items.len() ==> attachment_ok(#[trigger] items[i]),
    ensures
        parse_attachment_items(enc_attachment_items(items) + rest, items.len()) == Some(
            (items, rest),
        ),
    decreases items.len(),
{
    if items.len() == 0 {
        assert(enc_attachment_items(items) + rest =~= rest);
        assert(items =~= Seq::<AttachmentView>::empty());
    } else {
        let d = items.drop_first();
        vstd::seq_lib::lemma_concat_associative(
            enc_attachment(items.first()),
            enc_attachment_items(d),
            rest,
        );
        assert(enc_attachment_items(items) + rest == enc_attachment(items.first()) + (
        enc_attachment_items(d) + rest));
        lemma_parse_attachment_round(items.first(), enc_attachment_items(d) + rest);
        assert forall|i: int| 0 <= i < d.len() implies attachment_ok(#[trigger] d[i]) by {
            assert(d[i] == items[i + 1]);
        }
        lemma_parse_attachment_items_round(d, rest);
        assert(seq![items.first()] + d =~= items);
    }
}

/// A task written by the encoder reads back as itself.
#[verifier::spinoff_prover]
#[verifier::rlimit(100)]
pub proof fn lemma_parse_task_round(t: TaskView, rest: Seq<char>)
    requires
        task_ok(t),
    ensures
        parse_task(enc_task(t) + rest) == Some((t, rest)),
{
    reveal(enc_task); reveal(parse_task);
    let l1 = enc_str(t.id);
    let l2 = enc_str(t.content);
    let l3 = enc_opt(t.description);
    let l4 = enc_opt(t.due_date);
    let l5 = dec_digits(t.labels.len());
    let l6 = seq![':'];
    let l7 = enc_label_items(t.labels);
    let l8 = dec_digits(t.comments.len());
    let l9 = seq![':'];
    let l10 = enc_comment_items(t.comments);
    let l11 = dec_digits(t.attachments.len());
    let l12 = seq![':'];
    let l13 = enc_attachment_items(t.attachments);
    let a2 = l1 + l2;
    let a3 = a2 + l3;
    let a4 = a3 + l4;
    let a5 = a4 + l5;
    let a6 = a5 + l6;
    let a7 = a6 + l7;
    let a8 = a7 + l8;
    let a9 = a8 + l9;
    let a10 = a9 + l10;
    let a11 = a10 + l11;
    let a12 = a11 + l12;
    let s9 = enc_attachment_items(t.attachments) + rest;
    let s8 = dec_digits(t.attachments.len()) + seq![':'] + s9;
    let s7 = enc_comment_items(t.comments) + s8;
    let s6 = dec_digits(t.comments.len()) + seq![':'] + s7;
    let s5 = enc_label_items(t.labels) + s6;
    let s4 = dec_digits(t.labels.len()) + seq![':'] + s5;
    let s3 = enc_opt(t.due_date) + s4;
    let s2 = enc_opt(t.description) + s3;
    let s1 = enc_str(t.content) + s2;
    let s0 = enc_task(t) + rest;
    assert(enc_task(t) == a12 + l13);
    vstd::seq_lib::lemma_concat_associative(a12, l13, rest);
    assert(s0 == a12 + s9);
    vstd::seq_lib::lemma_concat_associative(a11, l12, s9);
    vstd::seq_lib::lemma_concat_associative(l11, l12, s9);
    vstd::seq_lib::lemma_concat_associative(a10, l11, l12 + s9);
    assert(s0 == a10 + s8);
    vstd::seq_lib::lemma_concat_associative(a9, l10, s8);
    assert(s0 == a9 + s7);
    vstd::seq_lib::lemma_concat_associative(a8, l9, s7);
    vstd::seq_lib::lemma_concat_associative(l8, l9, s7);
    vstd::seq_lib::lemma_concat_associative(a7, l8, l9 + s7);
    assert(s0 == a7 + s6);
    vstd::seq_lib::lemma_concat_associative(a6, l7, s6);
    assert(s0 == a6 + s5);
    vstd::seq_lib::lemma_concat_associative(a5, l6, s5);
    vstd::seq_lib::lemma_concat_associative(l5, l6, s5);
    vstd::seq_lib::lemma_concat_associative(a4, l5, l6 + s5);
    assert(s0 == a4 + s4);
    vstd::seq_lib::lemma_concat_associative(a3, l4, s4);
    assert(s0 == a3 + s3);
    vstd::seq_lib::lemma_concat_associative(a2, l3, s3);
    assert(s0 == a2 + s2);
    vstd::seq_lib::lemma_concat_associative(l1, l2, s2);
    assert(s0 == l1 + s1);
    lemma_parse_str_round(t.id, s1);
    assert(parse_str(s0) == Some((t.id, s1)));
    lemma_parse_str_round(t.content, s2);
    assert(parse_str(s1) == Some((t.content, s2)));
    lemma_parse_opt_round(t.description, s3);
    assert(parse_opt(s2) == Some((t.description, s3)));
    lemma_parse_opt_round(t.due_date, s4);
    assert(parse_opt(s3) == Some((t.due_date, s4)));
    lemma_parse_len_round(t.labels.len(), s5);
    assert(parse_len(s4) == Some((t.labels.len(), s5)));
    lemma_parse_label_items_round(t.labels, s6);
    assert(parse_label_items(s5, t.labels.len()) == Some((t.labels, s6)));
    lemma_parse_len_round(t.comments.len(), s7);
    assert(parse_len(s6) == Some((t.comments.len(), s7)));
    lemma_parse_comment_items_round(t.comments, s8);
    assert(parse_comment_items(s7, t.comments.len()) == Some((t.comments, s8)));
    lemma_parse_len_round(t.attachments.len(), s9);
    assert(parse_len(s8) == Some((t.attachments.len(), s9)));
    lemma_parse_attachment_items_round(t.attachments, rest);
    assert(parse_attachment_items(s9, t.attachments.len()) == Some((t.attachments, rest)));
    assert(parse_task(s0) == Some((t, rest)));
}

/// Encoded tasks read back as themselves.
#[verifier::spinoff_prover]
#[verifier::rlimit(100)]
proof fn lemma_parse_task_items_round(items: Seq<TaskView>, rest: Seq<char>)
    requires
        forall|i: int| 0 <= i < items.len() ==> task_ok(#[trigger] items[i]),
    ensures
        parse_task_items(enc_task_items(items) + rest, items.len()) == Some((items, rest)),
    decreases items.len(),
{
    if items.len() == 0 {
        assert(enc_task_items(items) + rest =~= rest);
        assert(items =~= Seq::<TaskView>::empty());
    } else {
        let d = items.drop_first();
        vstd::seq_lib::lemma_concat_associative(enc_task(items.first()), enc_task_items(d), rest);
        assert(enc_task_items(items) + rest == enc_task(items.first()) + (enc_task_items(d)
            + rest));
        lemma_parse_task_round(items.first(), enc_task_items(d) + rest);
        assert forall|i: int| 0 <= i < d.len() implies task_ok(#[trigger] d[i]) by {
            assert(d[i] == items[i + 1]);
        }
        lemma_parse_task_items_round(d, rest);
        assert(seq![items.first()] + d =~= items);
    }
}

/// A column written by the encoder reads back as itself.
pub proof fn lemma_parse_column_round(c: ColumnView, rest: Seq<char>)
    requires
        column_ok(c),
    ensures
        parse_column(enc_column(c) + rest) == Some((c, rest)),
{
    reveal(enc_column); reveal(parse_column);
    let s3 = enc_task_items(c.tasks) + rest;
    let s2 = dec_digits(c.tasks.len()) + seq![':'] + s3;
    let s1 = enc_str(c.title) + s2;
    assert(enc_column(c) + rest =~= enc_str(c.id) + s1);
    lemma_parse_str_round(c.id, s1);
    lemma_parse_str_round(c.title, s2);
    lemma_parse_len_round(c.tasks.len(), s3);
    lemma_parse_task_items_round(c.tasks, rest);
    assert(parse_column(enc_column(c) + rest) == Some((c, rest)));
}

/// Encoded columns read back as themselves.
#[verifier::spinoff_prover]
#[verifier::rlimit(100)]
proof fn lemma_parse_column_items_round(items: Seq<ColumnView>, rest: Seq<char>)
    requires
        forall|i: int| 0 <= i < items.len() ==> column_ok(#[trigger] items[i]),
    ensures
        parse_column_items(enc_column_items(items) + rest, items.len()) == Some((items, rest)),
    decreases items.len(),
{
    if items.len() == 0 {
        assert(enc_column_items(items) + rest =~= rest);
        assert(items =~= Seq::<ColumnView>::empty());
    } else {
        let d = items.drop_first();
        vstd::seq_lib::lemma_concat_associative(
            enc_column(items.first()),
            enc_column_items(d),
            rest,
        );
        assert(enc_column_items(items) + rest == enc_column(items.first()) + (enc_column_items(d)
            + rest));
        lemma_parse_column_round(items.first(), enc_column_items(d) + rest);
        assert forall|i: int| 0 <= i < d.len() implies column_ok(#[trigger] d[i]) by {
            assert(d[i] == items[i + 1]);
        }
        lemma_parse_column_items_round(d, rest);
        assert(seq![items.first()] + d =~= items);
    }
}

/// The round trip of persistence: decoding an encoded board yields the
/// board, identically — same columns, same task order, same nested
/// collections. Encoding loses nothing.
pub proof fn lemma_snapshot_round_trip(cols: Seq<ColumnView>)
    requires
        board_ok(cols),
    ensures
        dec_board(enc_board(cols)) == Some(cols),
{
    let s5 = enc_column_items(cols) + Seq::<char>::empty();
    assert(enc_board(cols) =~= dec_digits(cols.len()) + seq![':'] + s5);
    lemma_parse_len_round(cols.len(), s5);
    assert(s5 =~= enc_column_items(cols) + Seq::<char>::empty());
    lemma_parse_column_items_round(cols, Seq::<char>::empty());
    assert(dec_board(enc_board(cols)) == Some(cols));
}

/// The one-character string of a digit value.
fn digit_str(d: usize) -> (r: &'static str)
    requires
        d < 10,
    ensures
        r@ == seq![digit_char(d as nat)],
{
    proof {
        reveal_strlit("0");
        reveal_strlit("1");
        reveal_strlit("2");
        reveal_strlit("3");
        reveal_strlit("4");
        reveal_strlit("5");
        reveal_strlit("6");
        reveal_strlit("7");
        reveal_strlit("8");
        reveal_strlit("9");
        assert("0"@ =~= seq![digit_char(0nat)]);
        assert("1"@ =~= seq![digit_char(1nat)]);
        assert("2"@ =~= seq![digit_char(2nat)]);
        assert("3"@ =~= seq![digit_char(3nat)]);
        assert("4"@ =~= seq![digit_char(4nat)]);
        assert("5"@ =~= seq![digit_char(5nat)]);
        assert("6"@ =~= seq![digit_char(6nat)]);
        assert("7"@ =~= seq![digit_char(7nat)]);
        assert("8"@ =~= seq![digit_char(8nat)]);
        assert("9"@ =~= seq![digit_char(9nat)]);
    }
    match d {
        0 => "0",
        1 => "1",
        2 => "2",
        3 => "3",
        4 => "4",
        5 => "5",
        6 => "6",
        7 => "7",
        8 => "8",
        _ => "9",
    }
}

/// The decimal rendering of `n`.
fn fmt_len(n: usize) -> (r: String)
    ensures
        r@ == dec_digits(n as nat),
    decreases n,
{
    if n < 10 {
        digit_str(n).to_owned()
    } else {
        let mut r = fmt_len(n / 10);
        r.append(digit_str(n % 10));
        proof {
            assert(r@ =~= dec_digits(n as nat));
        }
        r
    }
}

/// Appends a length header for `n` to `out`.
fn write_count(out: &mut String, n: usize)
    ensures
        final(out)@ == old(out)@ + dec_digits(n as nat) + seq![':'],
{
    let digits = fmt_len(n);
    out.append(digits.as_str());
    out.append(":");
    proof {
        reveal_strlit(":");
        assert(":"@ =~= seq![':']);
        assert(out@ =~= old(out)@ + dec_digits(n as nat) + seq![':']);
    }
}

/// Appends an encoded string field to `out`.
fn write_str_field(out: &mut String, s: &str)
    ensures
        final(out)@ == old(out)@ + enc_str(s@),
        str_ok(s@),
{
    let l = s.unicode_len();
    write_count(out, l);
    out.append(s);
    proof {
        assert(out@ =~= old(out)@ + enc_str(s@));
    }
}

/// Appends an encoded optional string field to `out`.
fn write_opt_field(out: &mut String, o: &Option<String>)
    ensures
        final(out)@ == old(out)@ + enc_opt(o.deep_view()),
        match o.deep_view() {
            Some(v) => str_ok(v),
            None => true,
        },
{
    match o {
        None => {
            out.append("n");
            proof {
                reveal_strlit("n");
                assert("n"@ =~= seq!['n']);
                assert(out@ =~= old(out)@ + enc_opt(o.deep_view()));
            }
        },
        Some(v) => {
            out.append("s");
            write_str_field(out, v.as_str());
            proof {
                reveal_strlit("s");
                assert("s"@ =~= seq!['s']);
                assert(out@ =~= old(out)@ + enc_opt(o.deep_view()));
            }
        },
    }
}

/// Appends one encoded comment to `out`.
fn write_comment(out: &mut String, c: &Comment)
    ensures
        final(out)@ == old(out)@ + enc_comment(c@),
        comment_ok(c@),
{
    write_str_field(out, c.id.as_str());
    write_str_field(out, c.author.as_str());
    write_str_field(out, c.content.as_str());
    write_str_field(out, c.created_at.as_str());
    proof {
        reveal(enc_comment);
        assert(out@ =~= old(out)@ + enc_comment(c@));
    }
}

/// Appends one encoded attachment to `out`.
fn write_attachment(out: &mut String, a: &Attachment)
    ensures
        final(out)@ == old(out)@ + enc_attachment(a@),
        attachment_ok(a@),
{
    write_str_field(out, a.id.as_str());
    write_str_field(out, a.file_name.as_str());
    write_str_field(out, a.file_path.as_str());
    write_str_field(out, a.mime_type.as_str());
    proof {
        reveal(enc_attachment);
        assert(out@ =~= old(out)@ + enc_attachment(a@));
    }
}

/// Appends the encoded label strings from `from` on to `out`.
fn write_labels(out: &mut String, items: &Vec<String>, from: usize)
    requires
        from <= items@.len(),
    ensures
        final(out)@ == old(out)@ + enc_label_items(items.deep_view().skip(from as int)),
        forall|i: int|
            from <= i < items@.len() ==> str_ok(#[trigger] items.deep_view()[i]),
    decreases items@.len() - from,
{
    let ghost dv = items.deep_view();
    if from < items.len() {
        write_str_field(out, items[from].as_str());
        write_labels(out, items, from + 1);
        proof {
            assert(dv.skip(from as int).first() == dv[from as int]);
            assert(dv.skip(from as int).drop_first() =~= dv.skip(from as int + 1));
            assert(out@ =~= old(out)@ + enc_label_items(dv.skip(from as int)));
        }
    } else {
        proof {
            assert(dv.skip(from as int) =~= Seq::<Seq<char>>::empty());
            assert(out@ =~= old(out)@ + enc_label_items(dv.skip(from as int)));
        }
    }
}

/// Appends the encoded comments from `from` on to `out`.
fn write_comments(out: &mut String, items: &Vec<Comment>, from: usize)
    requires
        from <= items@.len(),
    ensures
        final(out)@ == old(out)@ + enc_comment_items(items.deep_view().skip(from as int)),
        forall|i: int|
            from <= i < items@.len() ==> comment_ok(#[trigger] items.deep_view()[i]),
    decreases items@.len() - from,
{
    let ghost dv = items.deep_view();
    if from < items.len() {
        write_comment(out, &items[from]);
        write_comments(out, items, from + 1);
        proof {
            assert(dv.skip(from as int).first() == dv[from as int]);
            assert(dv.skip(from as int).drop_first() =~= dv.skip(from as int + 1));
            assert(out@ =~= old(out)@ + enc_comment_items(dv.skip(from as int)));
        }
    } else {
        proof {
            assert(dv.skip(from as int) =~= Seq::<CommentView>::empty());
            assert(out@ =~= old(out)@ + enc_comment_items(dv.skip(from as int)));
        }
    }
}

/// Appends the encoded attachments from `from` on to `out`.
fn write_attachments(out: &mut String, items: &Vec<Attachment>, from: usize)
    requires
        from <= items@.len(),
    ensures
        final(out)@ == old(out)@ + enc_attachment_items(items.deep_view().skip(from as int)),
        forall|i: int|
            from <= i < items@.len() ==> attachment_ok(#[trigger] items.deep_view()[i]),
    decreases items@.len() - from,
{
    let ghost dv = items.deep_view();
    if from < items.len() {
        write_attachment(out, &items[from]);
        write_attachments(out, items, from + 1);
        proof {
            assert(dv.skip(from as int).first() == dv[from as int]);
            assert(dv.skip(from as int).drop_first() =~= dv.skip(from as int + 1));
            assert(out@ =~= old(out)@ + enc_attachment_items(dv.skip(from as int)));
        }
    } else {
        proof {
            assert(dv.skip(from as int) =~= Seq::<AttachmentView>::empty());
            assert(out@ =~= old(out)@ + enc_attachment_items(dv.skip(from as int)));
        }
    }
}

/// Appends one encoded task to `out`.
fn write_task(out: &mut String, t: &Task)
    ensures
        final(out)@ == old(out)@ + enc_task(t@),
        task_ok(t@),
{
    write_str_field(out, t.id.as_str());
    write_str_field(out, t.content.as_str());
    write_opt_field(out, &t.description);
    write_opt_field(out, &t.due_date);
    write_count(out, t.labels.len());
    write_labels(out, &t.labels, 0);
    write_count(out, t.comments.len());
    write_comments(out, &t.comments, 0);
    write_count(out, t.attachments.len());
    write_attachments(out, &t.attachments, 0);
    proof {
        reveal(enc_task);
        assert(t.labels.deep_view().skip(0) =~= t@.labels);
        assert(t.comments.deep_view().skip(0) =~= t@.comments);
        assert(t.attachments.deep_view().skip(0) =~= t@.attachments);
        let o = old(out)@;
        let l1 = enc_str(t@.id);
        let l2 = enc_str(t@.content);
        let l3 = enc_opt(t@.description);
        let l4 = enc_opt(t@.due_date);
        let l5 = dec_digits(t@.labels.len());
        let l6 = seq![':'];
        let l7 = enc_label_items(t@.labels);
        let l8 = dec_digits(t@.comments.len());
        let l9 = seq![':'];
        let l10 = enc_comment_items(t@.comments);
        let l11 = dec_digits(t@.attachments.len());
        let l12 = seq![':'];
        let l13 = enc_attachment_items(t@.attachments);
        let a2 = l1 + l2;
        let a3 = a2 + l3;
        let a4 = a3 + l4;
        let a5 = a4 + l5;
        let a6 = a5 + l6;
        let a7 = a6 + l7;
        let a8 = a7 + l8;
        let a9 = a8 + l9;
        let a10 = a9 + l10;
        let a11 = a10 + l11;
        let a12 = a11 + l12;
        vstd::seq_lib::lemma_concat_associative(o, l1, l2);
        vstd::seq_lib::lemma_concat_associative(o, a2, l3);
        vstd::seq_lib::lemma_concat_associative(o, a3, l4);
        vstd::seq_lib::lemma_concat_associative(o, a4, l5);
        vstd::seq_lib::lemma_concat_associative(o, a5, l6);
        vstd::seq_lib::lemma_concat_associative(o, a6, l7);
        vstd::seq_lib::lemma_concat_associative(o, a7, l8);
        vstd::seq_lib::lemma_concat_associative(o, a8, l9);
        vstd::seq_lib::lemma_concat_associative(o, a9, l10);
        vstd::seq_lib::lemma_concat_associative(o, a10, l11);
        vstd::seq_lib::lemma_concat_associative(o, a11, l12);
        vstd::seq_lib::lemma_concat_associative(o, a12, l13);
        assert(out@ == o + enc_task(t@));
    }
}

/// Appends one encoded column to `out`.
fn write_column(out: &mut String, c: &Column)
    ensures
        final(out)@ == old(out)@ + enc_column(c@),
        column_ok(c@),
{
    write_str_field(out, c.id.as_str());
    write_str_field(out, c.title.as_str());
    write_count(out, c.tasks.len());
    write_tasks(out, &c.tasks, 0);
    proof {
        reveal(enc_column);
        assert(c.tasks.deep_view().skip(0) =~= c@.tasks);
        assert(out@ =~= old(out)@ + enc_column(c@));
    }
}

/// Appends the encoded tasks from `from` on to `out`.
fn write_tasks(out: &mut String, items: &Vec<Task>, from: usize)
    requires
        from <= items@.len(),
    ensures
        final(out)@ == old(out)@ + enc_task_items(items.deep_view().skip(from as int)),
        forall|i: int| from <= i < items@.len() ==> task_ok(#[trigger] items.deep_view()[i]),
    decreases items@.len() - from,
{
    let ghost dv = items.deep_view();
    if from < items.len() {
        write_task(out, &items[from]);
        write_tasks(out, items, from + 1);
        proof {
            assert(dv.skip(from as int).first() == dv[from as int]);
            assert(dv.skip(from as int).drop_first() =~= dv.skip(from as int + 1));
            assert(out@ =~= old(out)@ + enc_task_items(dv.skip(from as int)));
        }
    } else {
        proof {
            assert(dv.skip(from as int) =~= Seq::<TaskView>::empty());
            assert(out@ =~= old(out)@ + enc_task_items(dv.skip(from as int)));
        }
    }
}

/// Appends the encoded columns from `from` on to `out`.
fn write_columns(out: &mut String, items: &Vec<Column>, from: usize)
    requires
        from <= items@.len(),
    ensures
        final(out)@ == old(out)@ + enc_column_items(items.deep_view().skip(from as int)),
        forall|i: int| from <= i < items@.len() ==> column_ok(#[trigger] items.deep_view()[i]),
    decreases items@.len() - from,
{
    let ghost dv = items.deep_view();
    if from < items.len() {
        write_column(out, &items[from]);
        write_columns(out, items, from + 1);
        proof {
            assert(dv.skip(from as int).first() == dv[from as int]);
            assert(dv.skip(from as int).drop_first() =~= dv.skip(from as int + 1));
            assert(out@ =~= old(out)@ + enc_column_items(dv.skip(from as int)));
        }
    } else {
        proof {
            assert(dv.skip(from as int) =~= Seq::<ColumnView>::empty());
            assert(out@ =~= old(out)@ + enc_column_items(dv.skip(from as int)));
        }
    }
}

/// Renders the whole board as its snapshot text. Never fails, and the
/// result decodes back to exactly this board.
pub fn encode_board(b: &Board) -> (r: String)
    ensures
        r@ == enc_board(b@),
        board_ok(b@),
        dec_board(r@) == Some(b@),
{
    let mut out = String::new();
    write_count(&mut out, b.columns.len());
    write_columns(&mut out, &b.columns, 0);
    proof {
        assert(b.columns.deep_view().skip(0) =~= b@);
        assert(out@ =~= enc_board(b@));
        lemma_snapshot_round_trip(b@);
    }
    out
}

/// The digit run is the unique boundary with digits before it and a
/// non-digit (or the end) at it.
proof fn lemma_digit_run_unique(s: Seq<char>, k: int)
    requires
        0 <= k <= s.len(),
        forall|j: int| 0 <= j < k ==> is_digit(#[trigger] s[j]),
        k < s.len() ==> !is_digit(s[k]),
    ensures
        digit_run_len(s) == k,
    decreases s.len(),
{
    if s.len() == 0 {
    } else if !is_digit(s[0]) {
        assert(k == 0);
    } else {
        assert(k > 0);
        let d = s.drop_first();
        assert(forall|j: int| 0 <= j < k - 1 ==> is_digit(#[trigger] d[j]));
        assert(k - 1 < d.len() ==> !is_digit(d[k - 1]));
        lemma_digit_run_unique(d, k - 1);
    }
}

/// A longer digit prefix never reads as a smaller number.
proof fn lemma_num_prefix_mono(s: Seq<char>, a: int, b: int)
    requires
        0 <= a <= b <= s.len(),
    ensures
        num_of_digits(s.subrange(0, a)) <= num_of_digits(s.subrange(0, b)),
    decreases b,
{
    if a < b {
        lemma_num_prefix_mono(s, a, b - 1);
        assert(s.subrange(0, b).drop_last() =~= s.subrange(0, b - 1));
        assert(num_of_digits(s.subrange(0, b)) == num_of_digits(s.subrange(0, b - 1)) * 10
            + digit_val(s.subrange(0, b).last()));
    }
}

/// Whether `c` is a decimal digit.
fn is_digit_exec(c: char) -> (r: bool)
    ensures
        r == is_digit(c),
{
    c == '0' || c == '1' || c == '2' || c == '3' || c == '4' || c == '5' || c == '6' || c == '7'
        || c == '8' || c == '9'
}

/// The value of a digit character.
fn digit_val_exec(c: char) -> (r: usize)
    requires
        is_digit(c),
    ensures
        r as nat == digit_val(c),
{
    if c == '0' {
        0
    } else if c == '1' {
        1
    } else if c == '2' {
        2
    } else if c == '3' {
        3
    } else if c == '4' {
        4
    } else if c == '5' {
        5
    } else if c == '6' {
        6
    } else if c == '7' {
        7
    } else if c == '8' {
        8
    } else {
        9
    }
}

/// Reads a length header from the front of `s`.
fn parse_len_exec<'a>(s: &'a str) -> (r: Option<(usize, &'a str)>)
    ensures
        match r {
            Some(p) => parse_len(s@) == Some((p.0 as nat, p.1@)),
            None => parse_len(s@) is None,
        },
{
    let len = s.unicode_len();
    let mut k: usize = 0;
    while k < len && is_digit_exec(s.get_char(k))
        invariant
            0 <= k <= len,
            len == s@.len(),
            forall|j: int| 0 <= j < k ==> is_digit(#[trigger] s@[j]),
        decreases len - k,
    {
        k += 1;
    }
    proof {
        lemma_digit_run_unique(s@, k as int);
    }
    if k == 0 {
        return None;
    }
    if k >= len {
        return None;
    }
    if s.get_char(k) != ':' {
        return None;
    }
    let mut acc: usize = 0;
    let mut i: usize = 0;
    proof {
        assert(s@.subrange(0, 0) =~= Seq::<char>::empty());
    }
    while i < k
        invariant
            0 <= i <= k,
            1 <= k < len,
            len == s@.len(),
            digit_run_len(s@) == k as nat,
            s@[k as int] == ':',
            forall|j: int| 0 <= j < k ==> is_digit(#[trigger] s@[j]),
            acc as nat == num_of_digits(s@.subrange(0, i as int)),
        decreases k - i,
    {
        let d = digit_val_exec(s.get_char(i));
        proof {
            assert(s@.subrange(0, i + 1).drop_last() =~= s@.subrange(0, i as int));
            assert(s@.subrange(0, i + 1).last() == s@[i as int]);
        }
        let next = match acc.checked_mul(10) {
            Some(m) => m.checked_add(d),
            None => None,
        };
        match next {
            Some(a2) => {
                acc = a2;
                i += 1;
            },
            None => {
                proof {
                    assert(num_of_digits(s@.subrange(0, i + 1)) > usize::MAX);
                    lemma_num_prefix_mono(s@, i + 1, k as int);
                    assert(num_of_digits(s@.subrange(0, k as int)) > usize::MAX);
                }
                return None;
            },
        }
    }
    let rest = s.substring_char(k + 1, len);
    proof {
        assert(parse_len(s@) == Some((acc as nat, s@.subrange(k as int + 1, s@.len() as int))));
    }
    Some((acc, rest))
}

/// Reads an encoded string from the front of `s`.
fn parse_str_exec<'a>(s: &'a str) -> (r: Option<(String, &'a str)>)
    ensures
        match r {
            Some(p) => parse_str(s@) == Some((p.0@, p.1@)),
            None => parse_str(s@) is None,
        },
{
    match parse_len_exec(s) {
        None => None,
        Some((n, rest)) => {
            let rl = rest.unicode_len();
            if rl < n {
                None
            } else {
                let v = rest.substring_char(0, n).to_owned();
                let tail = rest.substring_char(n, rl);
                Some((v, tail))
            }
        },
    }
}

/// Reads an encoded optional string from the front of `s`.
fn parse_opt_exec<'a>(s: &'a str) -> (r: Option<(Option<String>, &'a str)>)
    ensures
        match r {
            Some(p) => parse_opt(s@) == Some((p.0.deep_view(), p.1@)),
            None => parse_opt(s@) is None,
        },
{
    let len = s.unicode_len();
    if len == 0 {
        return None;
    }
    let c = s.get_char(0);
    if c == 'n' {
        let rest = s.substring_char(1, len);
        proof {
            assert(rest@ =~= s@.drop_first());
        }
        let o: Option<String> = None;
        Some((o, rest))
    } else if c == 's' {
        let tail = s.substring_char(1, len);
        proof {
            assert(tail@ =~= s@.drop_first());
        }
        match parse_str_exec(tail) {
            None => None,
            Some((v, rest)) => Some((Some(v), rest)),
        }
    } else {
        None
    }
}

/// Reads an encoded comment from the front of `s`.
fn parse_comment_exec<'a>(s: &'a str) -> (r: Option<(Comment, &'a str)>)
    ensures
        match r {
            Some(p) => parse_comment(s@) == Some((p.0@, p.1@)),
            None => parse_comment(s@) is None,
        },
{
    proof {
        reveal(parse_comment);
    }
    match parse_str_exec(s) {
        None => None,
        Some((id, s1)) => match parse_str_exec(s1) {
            None => None,
            Some((author, s2)) => match parse_str_exec(s2) {
                None => None,
                Some((content, s3)) => match parse_str_exec(s3) {
                    None => None,
                    Some((created_at, s4)) => Some(
                        (Comment { id, author, content, created_at }, s4),
                    ),
                },
            },
        },
    }
}

/// Reads an encoded attachment from the front of `s`.
fn parse_attachment_exec<'a>(s: &'a str) -> (r: Option<(Attachment, &'a str)>)
    ensures
        match r {
            Some(p) => parse_attachment(s@) == Some((p.0@, p.1@)),
            None => parse_attachment(s@) is None,
        },
{
    proof {
        reveal(parse_attachment);
    }
    match parse_str_exec(s) {
        None => None,
        Some((id, s1)) => match parse_str_exec(s1) {
            None => None,
            Some((file_name, s2)) => match parse_str_exec(s2) {
                None => None,
                Some((file_path, s3)) => match parse_str_exec(s3) {
                    None => None,
                    Some((mime_type, s4)) => Some(
                        (Attachment { id, file_name, file_path, mime_type }, s4),
                    ),
                },
            },
        },
    }
}

/// Reads exactly `n` encoded label strings from the front of `s`.
fn parse_label_items_exec<'a>(s: &'a str, n: usize) -> (r: Option<(Vec<String>, &'a str)>)
    ensures
        match r {
            Some(p) => parse_label_items(s@, n as nat) == Some((p.0.deep_view(), p.1@)),
            None => parse_label_items(s@, n as nat) is None,
        },
    decreases n,
{
    if n == 0 {
        let items: Vec<String> = Vec::new();
        proof {
            assert(items.deep_view() =~= Seq::<Seq<char>>::empty());
        }
        Some((items, s))
    } else {
        match parse_str_exec(s) {
            None => None,
            Some((v, rest)) => {
                let ghost gv = v@;
                match parse_label_items_exec(rest, n - 1) {
                    None => None,
                    Some((mut items, rest2)) => {
                        let ghost gitems = items.deep_view();
                        items.insert(0, v);
                        proof {
                            assert(items.deep_view() =~= seq![gv] + gitems);
                        }
                        Some((items, rest2))
                    },
                }
            },
        }
    }
}

/// Reads exactly `n` encoded comments from the front of `s`.
fn parse_comment_items_exec<'a>(s: &'a str, n: usize) -> (r: Option<(Vec<Comment>, &'a str)>)
    ensures
        match r {
            Some(p) => parse_comment_items(s@, n as nat) == Some((p.0.deep_view(), p.1@)),
            None => parse_comment_items(s@, n as nat) is None,
        },
    decreases n,
{
    if n == 0 {
        let items: Vec<Comment> = Vec::new();
        proof {
            assert(items.deep_view() =~= Seq::<CommentView>::empty());
        }
        Some((items, s))
    } else {
        match parse_comment_exec(s) {
            None => None,
            Some((v, rest)) => {
                let ghost gv = v@;
                match parse_comment_items_exec(rest, n - 1) {
                    None => None,
                    Some((mut items, rest2)) => {
                        let ghost gitems = items.deep_view();
                        items.insert(0, v);
                        proof {
                            assert(items.deep_view() =~= seq![gv] + gitems);
                        }
                        Some((items, rest2))
                    },
                }
            },
        }
    }
}

/// Reads exactly `n` encoded attachments from the front of `s`.
fn parse_attachment_items_exec<'a>(s: &'a str, n: usize) -> (r: Option<(Vec<Attachment>, &'a str)>)
    ensures
        match r {
            Some(p) => parse_attachment_items(s@, n as nat) == Some((p.0.deep_view(), p.1@)),
            None => parse_attachment_items(s@, n as nat) is None,
        },
    decreases n,
{
    if n == 0 {
        let items: Vec<Attachment> = Vec::new();
        proof {
            assert(items.deep_view() =~= Seq::<AttachmentView>::empty());
        }
        Some((items, s))
    } else {
        match parse_attachment_exec(s) {
            None => None,
            Some((v, rest)) => {
                let ghost gv = v@;
                match parse_attachment_items_exec(rest, n - 1) {
                    None => None,
                    Some((mut items, rest2)) => {
                        let ghost gitems = items.deep_view();
                        items.insert(0, v);
                        proof {
                            assert(items.deep_view() =~= seq![gv] + gitems);
                        }
                        Some((items, rest2))
                    },
                }
            },
        }
    }
}

/// Reads an encoded task from the front of `s`.
#[verifier::rlimit(100)]
fn parse_task_exec<'a>(s: &'a str) -> (r: Option<(Task, &'a str)>)
    ensures
        match r {
            Some(p) => parse_task(s@) == Some((p.0@, p.1@)),
            None => parse_task(s@) is None,
        },
{
    proof {
        reveal(parse_task);
    }
    match parse_str_exec(s) {
        None => None,
        Some((id, s1)) => match parse_str_exec(s1) {
            None => None,
            Some((content, s2)) => match parse_opt_exec(s2) {
                None => None,
                Some((description, s3)) => match parse_opt_exec(s3) {
                    None => None,
                    Some((due_date, s4)) => match parse_len_exec(s4) {
                        None => None,
                        Some((nl, s5)) => match parse_label_items_exec(s5, nl) {
                            None => None,
                            Some((labels, s6)) => match parse_len_exec(s6) {
                                None => None,
                                Some((nc, s7)) => match parse_comment_items_exec(s7, nc) {
                                    None => None,
                                    Some((comments, s8)) => match parse_len_exec(s8) {
                                        None => None,
                                        Some((na, s9)) => match parse_attachment_items_exec(
                                            s9,
                                            na,
                                        ) {
                                            None => None,
                                            Some((attachments, s10)) => Some(
                                                (
                                                    Task {
                                                        id,
                                                        content,
                                                        description,
                                                        due_date,
                                                        labels,
                                                        comments,
                                                        attachments,
                                                    },
                                                    s10,
                                                ),
                                            ),
                                        },
                                    },
                                },
                            },
                        },
                    },
                },
            },
        },
    }
}

/// Reads exactly `n` encoded tasks from the front of `s`.
fn parse_task_items_exec<'a>(s: &'a str, n: usize) -> (r: Option<(Vec<Task>, &'a str)>)
    ensures
        match r {
            Some(p) => parse_task_items(s@, n as nat) == Some((p.0.deep_view(), p.1@)),
            None => parse_task_items(s@, n as nat) is None,
        },
    decreases n,
{
    if n == 0 {
        let items: Vec<Task> = Vec::new();
        proof {
            assert(items.deep_view() =~= Seq::<TaskView>::empty());
        }
        Some((items, s))
    } else {
        match parse_task_exec(s) {
            None => None,
            Some((v, rest)) => {
                let ghost gv = v@;
                match parse_task_items_exec(rest, n - 1) {
                    None => None,
                    Some((mut items, rest2)) => {
                        let ghost gitems = items.deep_view();
                        items.insert(0, v);
                        proof {
                            assert(items.deep_view() =~= seq![gv] + gitems);
                        }
                        Some((items, rest2))
                    },
                }
            },
        }
    }
}

/// Reads an encoded column from the front of `s`.
fn parse_column_exec<'a>(s: &'a str) -> (r: Option<(Column, &'a str)>)
    ensures
        match r {
            Some(p) => parse_column(s@) == Some((p.0@, p.1@)),
            None => parse_column(s@) is None,
        },
{
    proof {
        reveal(parse_column);
    }
    match parse_str_exec(s) {
        None => None,
        Some((id, s1)) => match parse_str_exec(s1) {
            None => None,
            Some((title, s2)) => match parse_len_exec(s2) {
                None => None,
                Some((nt, s3)) => match parse_task_items_exec(s3, nt) {
                    None => None,
                    Some((tasks, s4)) => Some((Column { id, title, tasks }, s4)),
                },
            },
        },
    }
}

/// Reads exactly `n` encoded columns from the front of `s`.
fn parse_column_items_exec<'a>(s: &'a str, n: usize) -> (r: Option<(Vec<Column>, &'a str)>)
    ensures
        match r {
            Some(p) => parse_column_items(s@, n as nat) == Some((p.0.deep_view(), p.1@)),
            None => parse_column_items(s@, n as nat) is None,
        },
    decreases n,
{
    if n == 0 {
        let items: Vec<Column> = Vec::new();
        proof {
            assert(items.deep_view() =~= Seq::<ColumnView>::empty());
        }
        Some((items, s))
    } else {
        match parse_column_exec(s) {
            None => None,
            Some((v, rest)) => {
                let ghost gv = v@;
                match parse_column_items_exec(rest, n - 1) {
                    None => None,
                    Some((mut items, rest2)) => {
                        let ghost gitems = items.deep_view();
                        items.insert(0, v);
                        proof {
                            assert(items.deep_view() =~= seq![gv] + gitems);
                        }
                        Some((items, rest2))
                    },
                }
            },
        }
    }
}

/// Reads a whole board back from its snapshot text. A text the encoder
/// did not write — truncated, malformed, or with trailing characters — is
/// rejected with `None`, so the caller can fall back to a default board.
pub fn decode_board(s: &str) -> (r: Option<Board>)
    ensures
        match r {
            Some(b) => dec_board(s@) == Some(b@),
            None => dec_board(s@) is None,
        },
{
    match parse_len_exec(s) {
        None => None,
        Some((n, rest)) => match parse_column_items_exec(rest, n) {
            None => None,
            Some((columns, rest2)) => {
                if rest2.unicode_len() == 0 {
                    let b = Board { columns };
                    Some(b)
                } else {
                    None
                }
            },
        },
    }
}

} // verus!
