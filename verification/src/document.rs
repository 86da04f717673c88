//! The document as a sequence of lines: which tasks it holds, and what it
//! becomes when a store is written back into it.

use crate::checkbox::{line_task, task_line};
use crate::hash_map_task::{HashMapTaskType, HashMapTaskView, TaskView};
use crate::store::{distinct_descriptions, loaded};
use vstd::prelude::*;

verus! {

/// The tasks of the checkbox lines of `lines`, in the order of the lines.
/// Other lines hold no task.
pub open spec fn document_tasks(lines: Seq<Seq<char>>) -> Seq<TaskView> {
    lines.filter_map(|l: Seq<char>| line_task(l))
}

/// Whether the task at `i` is the first of `s` that was loaded or created
/// under `description`.
pub open spec fn is_original_at(s: Seq<HashMapTaskView>, description: Seq<char>, i: int) -> bool {
    &&& 0 <= i < s.len()
    &&& s[i].original_description == description
    &&& forall|j: int| 0 <= j < i ==> (#[trigger] s[j]).original_description != description
}

/// Whether a task of `s` was loaded or created under `description`.
pub open spec fn has_original(s: Seq<HashMapTaskView>, description: Seq<char>) -> bool {
    exists|i: int| 0 <= i < s.len() && (#[trigger] s[i]).original_description == description
}

/// The position of the first task of `s` that was loaded or created under
/// `description`.
pub open spec fn original_index(s: Seq<HashMapTaskView>, description: Seq<char>) -> int {
    choose|i: int| is_original_at(s, description, i)
}

/// What becomes of `line` when `s` is written back. A line that is no
/// checkbox line stays as it is. A checkbox line is looked up by the
/// description it holds, among the descriptions under which the tasks of
/// `s` were loaded or created: it is written anew from what the task says
/// now, and it is dropped when the task is marked for removal or when there
/// is no such task.
pub open spec fn rewritten_line(line: Seq<char>, s: Seq<HashMapTaskView>) -> Option<Seq<char>> {
    match line_task(line) {
        None => Some(line),
        Some(t) => {
            let i = original_index(s, t.description);
            if has_original(s, t.description) && s[i].is_active() {
                Some(task_line(s[i].task()))
            } else {
                None
            }
        },
    }
}

/// The lines of `lines` that stay when `s` is written back, each as it
/// then reads, in their order.
pub open spec fn rewritten(lines: Seq<Seq<char>>, s: Seq<HashMapTaskView>) -> Seq<Seq<char>> {
    lines.filter_map(|l: Seq<char>| rewritten_line(l, s))
}

/// Whether `t` was created during the session and is still there.
pub open spec fn is_added(t: HashMapTaskView) -> bool {
    t.task_type == HashMapTaskType::Added
}

/// One line for each task of `s` that was added, in their order.
pub open spec fn added_lines(s: Seq<HashMapTaskView>) -> Seq<Seq<char>> {
    s.filter(|t: HashMapTaskView| is_added(t)).map_values(|t: HashMapTaskView| task_line(t.task()))
}

/// The document `lines` after `s` is written back: the lines that stay,
/// then the lines of the added tasks.
pub open spec fn rendered(lines: Seq<Seq<char>>, s: Seq<HashMapTaskView>) -> Seq<Seq<char>> {
    rewritten(lines, s) + added_lines(s)
}

/// Whether every checkbox line of `lines` reads exactly as the library
/// writes its task: no white space around it, a lower-case `x` for a task
/// that is done, and one space before the description.
pub open spec fn is_canonical(lines: Seq<Seq<char>>) -> bool {
    forall|i: int|
        0 <= i < lines.len() && line_task(#[trigger] lines[i]) is Some ==> lines[i] == task_line(
            line_task(lines[i])->0,
        )
}

/// Reading one line more either appends its task or changes nothing.
pub proof fn lemma_filter_map_take<A, B>(s: Seq<A>, f: spec_fn(A) -> Option<B>, i: int)
    requires
        0 <= i < s.len(),
    ensures
        s.take(i + 1).filter_map(f) == match f(s[i]) {
            Some(b) => s.take(i).filter_map(f).push(b),
            None => s.take(i).filter_map(f),
        },
{
    assert(s.take(i + 1).drop_last() =~= s.take(i));
    match f(s[i]) {
        Some(b) => {
            assert(s.take(i).filter_map(f) + seq![b] =~= s.take(i).filter_map(f).push(b));
        },
        None => {},
    }
}

/// Where some task was loaded or created under `description`, there is a
/// first such task, and `original_index` is its position.
pub proof fn lemma_original_index(s: Seq<HashMapTaskView>, description: Seq<char>, i: int)
    requires
        0 <= i < s.len(),
        s[i].original_description == description,
    ensures
        has_original(s, description),
        is_original_at(s, description, original_index(s, description)),
        original_index(s, description) <= i,
    decreases i,
{
    if forall|j: int| 0 <= j < i ==> (#[trigger] s[j]).original_description != description {
        assert(is_original_at(s, description, i));
    } else {
        let j = choose|j: int| 0 <= j < i && (#[trigger] s[j]).original_description == description;
        lemma_original_index(s, description, j);
    }
    let k = original_index(s, description);
    assert(is_original_at(s, description, k));
    if i < k {
        assert(s[i].original_description != description);
    }
}

/// The first task under `description` is the one that `original_index`
/// names.
pub proof fn lemma_original_index_is(s: Seq<HashMapTaskView>, description: Seq<char>, i: int)
    requires
        is_original_at(s, description, i),
    ensures
        has_original(s, description),
        original_index(s, description) == i,
{
    lemma_original_index(s, description, i);
    let k = original_index(s, description);
    if k < i {
        assert(s[k].original_description != description);
    }
}

/// The task of each checkbox line is among the tasks of the document.
pub proof fn lemma_document_tasks_contains(lines: Seq<Seq<char>>, i: int)
    requires
        0 <= i < lines.len(),
        line_task(lines[i]) is Some,
    ensures
        document_tasks(lines).contains(line_task(lines[i])->0),
    decreases lines.len(),
{
    let f = |l: Seq<char>| line_task(l);
    let front = lines.drop_last();
    let t = line_task(lines[i])->0;
    if i == lines.len() - 1 {
        let r = front.filter_map(f) + seq![t];
        assert(r[r.len() - 1] == t);
    } else {
        lemma_document_tasks_contains(front, i);
        let k = choose|k: int| 0 <= k < document_tasks(front).len() && document_tasks(front)[k] == t;
        match line_task(lines.last()) {
            Some(u) => {
                assert((front.filter_map(f) + seq![u])[k] == t);
            },
            None => {},
        }
    }
}

/// A store that was just loaded has no added task, so writing it back
/// appends nothing.
pub proof fn lemma_loaded_adds_nothing(tasks: Seq<TaskView>)
    ensures
        added_lines(loaded(tasks)) == Seq::<Seq<char>>::empty(),
{
    let s = loaded(tasks);
    let pred = |t: HashMapTaskView| is_added(t);
    assert(s.all(|t: HashMapTaskView| !pred(t))) by {
        assert forall|i: int| 0 <= i < s.len() implies !pred(#[trigger] s[i]) by {}
    }
    s.lemma_all_neg_filter_empty(pred);
    assert(added_lines(s) =~= Seq::<Seq<char>>::empty());
}

/// Writing a store back into the document it was just loaded from changes
/// nothing, where every checkbox line of the document reads as the library
/// writes it and no two of them hold the same description.
pub proof fn lemma_round_trip(lines: Seq<Seq<char>>)
    requires
        is_canonical(lines),
        distinct_descriptions(document_tasks(lines)),
    ensures
        rendered(lines, loaded(document_tasks(lines))) == lines,
{
    let tasks = document_tasks(lines);
    let s = loaded(tasks);
    lemma_loaded_adds_nothing(tasks);
    lemma_rewritten_loaded(lines, lines.len() as int);
    assert(lines.take(lines.len() as int) =~= lines);
    assert(rewritten(lines, s) + Seq::<Seq<char>>::empty() =~= rewritten(lines, s));
}

/// The first `n` lines of such a document stay as they are.
proof fn lemma_rewritten_loaded(lines: Seq<Seq<char>>, n: int)
    requires
        is_canonical(lines),
        distinct_descriptions(document_tasks(lines)),
        0 <= n <= lines.len(),
    ensures
        rewritten(lines.take(n), loaded(document_tasks(lines))) == lines.take(n),
    decreases n,
{
    let tasks = document_tasks(lines);
    let s = loaded(tasks);
    let f = |l: Seq<char>| rewritten_line(l, s);
    if n == 0 {
        assert(lines.take(0).filter_map(f) =~= lines.take(0));
    } else {
        lemma_rewritten_loaded(lines, n - 1);
        lemma_filter_map_take(lines, f, n - 1);
        let line = lines[n - 1];
        match line_task(line) {
            None => {},
            Some(t) => {
                lemma_document_tasks_contains(lines, n - 1);
                let k = choose|k: int| 0 <= k < tasks.len() && tasks[k] == t;
                assert(s[k].original_description == t.description);
                lemma_original_index(s, t.description, k);
                let i = original_index(s, t.description);
                assert(tasks[i].description == tasks[k].description);
                assert(i == k);
                assert(s[i].task() == t);
            },
        }
        assert(lines.take(n - 1).push(line) =~= lines.take(n));
    }
}

} // verus!
