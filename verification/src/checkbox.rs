//! The checkbox line: how a line of the document is read as a task, and how
//! a task is written as a line.

use crate::hash_map_task::{Task, TaskView};
use crate::text::{
    from_chars, is_space, is_trimmed, leading_spaces, lemma_leading_spaces,
    lemma_trailing_spaces_is, lemma_trim_is_trimmed, to_chars, trim, trim_bounds, trim_start,
};
use vstd::prelude::*;

verus! {

/// Whether `c` may stand between the brackets: a space for a task that is
/// open, `x` or `X` for one that is done.
pub open spec fn is_check(c: char) -> bool {
    c == ' ' || c == 'x' || c == 'X'
}

/// Whether `t`, a line without its surrounding white space, has the shape
/// `- [c] text`, with one check character, one space after the bracket and
/// some text.
pub open spec fn has_checkbox_shape(t: Seq<char>) -> bool {
    &&& t.len() > 6
    &&& t[0] == '-'
    &&& t[1] == ' '
    &&& t[2] == '['
    &&& is_check(t[3])
    &&& t[4] == ']'
    &&& t[5] == ' '
}

/// The task that `line` stands for, if it is a checkbox line. White space
/// around the line and around the description does not count; the task is
/// done unless the check character is a space.
pub open spec fn line_task(line: Seq<char>) -> Option<TaskView> {
    let t = trim(line);
    if has_checkbox_shape(t) {
        Some(TaskView { is_completed: t[3] != ' ', description: trim(t.skip(6)) })
    } else {
        None
    }
}

/// The six characters that open a checkbox line.
pub open spec fn line_prefix(is_completed: bool) -> Seq<char> {
    seq!['-', ' ', '[', if is_completed { 'x' } else { ' ' }, ']', ' ']
}

/// The line that stands for `task`: `- [x] ` or `- [ ] `, then the
/// description.
pub open spec fn task_line(task: TaskView) -> Seq<char> {
    line_prefix(task.is_completed) + task.description
}

/// A description read from a line is never empty and carries no white space
/// at either end.
pub proof fn lemma_line_task_description(line: Seq<char>)
    requires
        line_task(line) is Some,
    ensures
        line_task(line)->0.description.len() > 0,
        is_trimmed(line_task(line)->0.description),
{
    let t = trim(line);
    let rest = t.skip(6);
    lemma_trim_is_trimmed(line);
    lemma_trim_is_trimmed(rest);
    assert(rest.last() == t.last());
    lemma_leading_spaces(rest);
    let u = trim_start(rest);
    if leading_spaces(rest) == rest.len() {
        assert(is_space(rest[rest.len() - 1]));
    }
    assert(u.len() > 0);
    assert(u.last() == rest.last());
    lemma_trailing_spaces_is(u, 0);
    assert(trim(rest) =~= u);
}

/// Reading the line written for a task gives the task back, provided its
/// description is not empty and has no white space at either end.
pub proof fn lemma_read_written(task: TaskView)
    requires
        task.description.len() > 0,
        is_trimmed(task.description),
    ensures
        line_task(task_line(task)) == Some(task),
{
    let l = task_line(task);
    assert(l[0] == '-');
    assert(l.last() == task.description.last());
    lemma_trim_is_trimmed(l);
    assert(trim(l) == l);
    assert(has_checkbox_shape(l));
    assert(l.skip(6) =~= task.description);
    lemma_trim_is_trimmed(task.description);
}

/// Reads `line` as a task: `Some` exactly for a checkbox line.
pub fn parse_line(line: &str) -> (r: Option<Task>)
    ensures
        r is Some == line_task(line@) is Some,
        r is Some ==> r->0@ == line_task(line@)->0,
        r is Some ==> r->0@.description.len() > 0 && is_trimmed(r->0@.description),
{
    proof {
        if line_task(line@) is Some {
            lemma_line_task_description(line@);
        }
    }
    let chars = to_chars(line);
    let (a, b) = trim_bounds(&chars, 0, chars.len());
    assert(chars@.subrange(0, chars.len() as int) =~= line@);
    let ghost t = trim(line@);
    if b - a <= 6 {
        return None;
    }
    assert(forall|i: int| 0 <= i < t.len() ==> t[i] == chars@[a + i]);
    let check = chars[a + 3];
    if chars[a] != '-' || chars[a + 1] != ' ' || chars[a + 2] != '[' || !(check == ' ' || check
        == 'x' || check == 'X') || chars[a + 4] != ']' || chars[a + 5] != ' ' {
        return None;
    }
    let (c, d) = trim_bounds(&chars, a + 6, b);
    assert(t.skip(6) =~= chars@.subrange(a + 6, b as int));
    let description = from_chars(&chars, c, d);
    Some(Task { is_completed: check != ' ', description })
}

/// Writes `task` as a line.
pub fn format_line(task: &Task) -> (r: String)
    ensures
        r@ == task_line(task@),
{
    let mut r = String::from_str(if task.is_completed { "- [x] " } else { "- [ ] " });
    proof {
        reveal_strlit("- [x] ");
        reveal_strlit("- [ ] ");
        assert(r@ =~= line_prefix(task.is_completed));
    }
    r.append(task.description.as_str());
    r
}

} // verus!
