//! The mathematical model of a task store: a sequence of tasks in their
//! order, and what each operation of the store makes of it.

use crate::hash_map_task::{HashMapTaskType, HashMapTaskView, TaskView};
use crate::text::{is_infix, lowercase};
use vstd::prelude::*;

verus! {

/// Which tasks a listing shows.
#[derive(Debug, PartialEq, Eq, Clone, Copy, Structural)]
pub enum GetTasksFilterOption {
    /// Every active task.
    All,
    /// The active tasks that are done.
    Completed,
    /// The active tasks that are not done.
    Incomplete,
    /// Every task, those marked for removal too.
    AllWithDeleted,
}

/// Why an operation on a store or a document was refused.
#[derive(Debug, PartialEq, Eq, Clone, Copy, Structural)]
pub enum TaskError {
    /// An active task already has that description.
    DuplicateTask,
    /// No active task has that description.
    NotFound,
    /// Two lines of the document stand for the same description.
    AmbiguousDocument,
    /// The document could not be read or written.
    IoFailure,
}

impl TaskError {
    /// A short sentence for the user.
    pub fn message(&self) -> (r: String)
        ensures
            r@ == match *self {
                TaskError::DuplicateTask => "Task already exists"@,
                TaskError::NotFound => "Task not found"@,
                TaskError::AmbiguousDocument => "Two lines hold the same task"@,
                TaskError::IoFailure => "The document could not be read or written"@,
            },
    {
        match self {
            TaskError::DuplicateTask => String::from_str("Task already exists"),
            TaskError::NotFound => String::from_str("Task not found"),
            TaskError::AmbiguousDocument => String::from_str("Two lines hold the same task"),
            TaskError::IoFailure => String::from_str("The document could not be read or written"),
        }
    }
}

/// A change to one task.
#[derive(Debug, PartialEq, Eq)]
pub enum TaskUpdateAction {
    /// Flip the completion.
    Toggle,
    /// Mark the task for removal.
    Delete,
    /// Give the task this description.
    Edit(String),
}

/// The mathematical value of a [`TaskUpdateAction`].
pub enum ActionView {
    Toggle,
    Delete,
    Edit(Seq<char>),
}

impl View for TaskUpdateAction {
    type V = ActionView;

    open spec fn view(&self) -> ActionView {
        match self {
            TaskUpdateAction::Toggle => ActionView::Toggle,
            TaskUpdateAction::Delete => ActionView::Delete,
            TaskUpdateAction::Edit(description) => ActionView::Edit(description@),
        }
    }
}

/// A store is well formed when each task's order is its position and no two
/// active tasks share a description.
pub open spec fn well_formed(s: Seq<HashMapTaskView>) -> bool {
    &&& forall|i: int| 0 <= i < s.len() ==> (#[trigger] s[i]).order == i
    &&& forall|i: int, j: int|
        0 <= i < j < s.len() && (#[trigger] s[i]).is_active() && (#[trigger] s[j]).is_active()
            ==> s[i].description != s[j].description
}

/// Whether `t` is active and described by `description`.
pub open spec fn is_active_with(t: HashMapTaskView, description: Seq<char>) -> bool {
    t.is_active() && t.description == description
}

/// Whether some active task of `s` has `description`.
pub open spec fn has_active(s: Seq<HashMapTaskView>, description: Seq<char>) -> bool {
    exists|i: int| 0 <= i < s.len() && is_active_with(#[trigger] s[i], description)
}

/// The position of the active task of `s` that has `description`.
pub open spec fn active_index(s: Seq<HashMapTaskView>, description: Seq<char>) -> int {
    choose|i: int| 0 <= i < s.len() && is_active_with(#[trigger] s[i], description)
}

/// Whether a listing under `filter` shows `t`.
pub open spec fn keeps(filter: GetTasksFilterOption, t: HashMapTaskView) -> bool {
    match filter {
        GetTasksFilterOption::All => t.is_active(),
        GetTasksFilterOption::Completed => t.is_active() && t.is_completed,
        GetTasksFilterOption::Incomplete => t.is_active() && !t.is_completed,
        GetTasksFilterOption::AllWithDeleted => true,
    }
}

/// The tasks of `s` that a listing under `filter` shows, in their order.
pub open spec fn selected(s: Seq<HashMapTaskView>, filter: GetTasksFilterOption) -> Seq<
    HashMapTaskView,
> {
    s.filter(|t: HashMapTaskView| keeps(filter, t))
}

/// Whether `r` lists the tasks of `s` that `filter` shows: every task of
/// `r` is a task of `s` that the filter shows, every such task of `s` is in
/// `r`, and the orders in `r` rise strictly, so that no task is there twice.
pub open spec fn is_listing(
    r: Seq<HashMapTaskView>,
    s: Seq<HashMapTaskView>,
    filter: GetTasksFilterOption,
) -> bool {
    &&& forall|k: int|
        0 <= k < r.len() ==> keeps(filter, #[trigger] r[k]) && r[k].order < s.len() && s[r[k].order as int]
            == r[k]
    &&& forall|i: int|
        0 <= i < s.len() && keeps(filter, #[trigger] s[i]) ==> exists|k: int|
            0 <= k < r.len() && #[trigger] r[k] == s[i]
    &&& forall|k1: int, k2: int|
        0 <= k1 < k2 < r.len() ==> (#[trigger] r[k1]).order < (#[trigger] r[k2]).order
}

/// Whether what a task says passes `filter`.
pub open spec fn passes(filter: GetTasksFilterOption, t: TaskView) -> bool {
    match filter {
        GetTasksFilterOption::Completed => t.is_completed,
        GetTasksFilterOption::Incomplete => !t.is_completed,
        _ => true,
    }
}

/// Whether `r` says what the active tasks of `s` say that `filter` shows:
/// every entry of `r` passes the filter and is what an active task of `s`
/// says, every active task of `s` that passes is in `r`, and no description
/// is there twice.
pub open spec fn is_task_listing(
    r: Seq<TaskView>,
    s: Seq<HashMapTaskView>,
    filter: GetTasksFilterOption,
) -> bool {
    &&& forall|k: int|
        0 <= k < r.len() ==> passes(filter, #[trigger] r[k]) && has_active(s, r[k].description)
    &&& forall|i: int|
        0 <= i < s.len() && keeps(filter, #[trigger] s[i]) ==> exists|k: int|
            0 <= k < r.len() && #[trigger] r[k] == s[i].task()
    &&& forall|k1: int, k2: int|
        0 <= k1 < k2 < r.len() ==> (#[trigger] r[k1]).description != (#[trigger] r[k2]).description
}

/// Whether `partial` occurs in `description` when upper and lower case
/// count as the same.
pub open spec fn mentions(description: Seq<char>, partial: Seq<char>) -> bool {
    is_infix(lowercase(partial), lowercase(description))
}

/// The tasks of `s` that `filter` shows and whose description mentions
/// `partial`, in their order.
pub open spec fn found(
    s: Seq<HashMapTaskView>,
    partial: Seq<char>,
    filter: GetTasksFilterOption,
) -> Seq<HashMapTaskView> {
    selected(s, filter).filter(|t: HashMapTaskView| mentions(t.description, partial))
}

/// What each task of `s` says now.
pub open spec fn tasks_of(s: Seq<HashMapTaskView>) -> Seq<TaskView> {
    s.map_values(|t: HashMapTaskView| t.task())
}

/// The store made of `tasks` as loaded from a document: the task at
/// position `i` has order `i`.
pub open spec fn loaded(tasks: Seq<TaskView>) -> Seq<HashMapTaskView> {
    Seq::new(tasks.len(), |i: int| HashMapTaskView::existing(tasks[i], i as nat))
}

/// Whether no two of `tasks` share a description.
pub open spec fn distinct_descriptions(tasks: Seq<TaskView>) -> bool {
    forall|i: int, j: int|
        0 <= i < j < tasks.len() ==> (#[trigger] tasks[i]).description != (
        #[trigger] tasks[j]).description
}

/// `s` with a new task at its end: described by `description`, not done,
/// and ordered after every task that `s` has held.
pub open spec fn with_added(s: Seq<HashMapTaskView>, description: Seq<char>) -> Seq<
    HashMapTaskView,
> {
    s.push(HashMapTaskView::added(description, s.len()))
}

/// What `action` makes of the task `t`.
pub open spec fn applied(action: ActionView, t: HashMapTaskView) -> HashMapTaskView {
    match action {
        ActionView::Toggle => t.toggled(),
        ActionView::Delete => t.deleted(),
        ActionView::Edit(description) => t.renamed(description),
    }
}

/// `s` after `action` on its active task that has `description`.
pub open spec fn with_update(
    s: Seq<HashMapTaskView>,
    action: ActionView,
    description: Seq<char>,
) -> Seq<HashMapTaskView> {
    let i = active_index(s, description);
    s.update(i, applied(action, s[i]))
}

/// Whether `action` on the task described by `description` keeps the
/// descriptions of the active tasks of `s` apart: a new description must
/// not be that of another active task.
pub open spec fn may_apply(
    s: Seq<HashMapTaskView>,
    action: ActionView,
    description: Seq<char>,
) -> bool {
    match action {
        ActionView::Edit(new_description) => new_description == description || !has_active(
            s,
            new_description,
        ),
        _ => true,
    }
}

/// `s` after `action` on its active task that has `description`, or `s`
/// itself where there is no such task or the action may not be applied.
pub open spec fn update_or_skip(
    s: Seq<HashMapTaskView>,
    action: ActionView,
    description: Seq<char>,
) -> Seq<HashMapTaskView> {
    if has_active(s, description) && may_apply(s, action, description) {
        with_update(s, action, description)
    } else {
        s
    }
}

/// `s` after `action` on each of `descriptions` in turn, skipping those
/// that name no active task or to which the action may not be applied.
pub open spec fn with_updates(
    s: Seq<HashMapTaskView>,
    action: ActionView,
    descriptions: Seq<Seq<char>>,
) -> Seq<HashMapTaskView>
    decreases descriptions.len(),
{
    if descriptions.len() == 0 {
        s
    } else {
        update_or_skip(
            with_updates(s, action, descriptions.drop_last()),
            action,
            descriptions.last(),
        )
    }
}

/// How many of `descriptions` the action was applied to, taken in turn.
pub open spec fn count_updates(
    s: Seq<HashMapTaskView>,
    action: ActionView,
    descriptions: Seq<Seq<char>>,
) -> nat
    decreases descriptions.len(),
{
    if descriptions.len() == 0 {
        0
    } else {
        let before = with_updates(s, action, descriptions.drop_last());
        let one: nat = if has_active(before, descriptions.last()) && may_apply(
            before,
            action,
            descriptions.last(),
        ) {
            1
        } else {
            0
        };
        count_updates(s, action, descriptions.drop_last()) + one
    }
}

/// The descriptions of `tasks`.
pub open spec fn descriptions_of(tasks: Seq<TaskView>) -> Seq<Seq<char>> {
    tasks.map_values(|t: TaskView| t.description)
}

/// Whether some task of `s` differs from what the document holds.
pub open spec fn any_changed(s: Seq<HashMapTaskView>) -> bool {
    exists|i: int| 0 <= i < s.len() && (#[trigger] s[i]).is_changed()
}

/// Filtering one element more either appends that element or changes
/// nothing.
pub proof fn lemma_filter_take<A>(s: Seq<A>, pred: spec_fn(A) -> bool, i: int)
    requires
        0 <= i < s.len(),
    ensures
        s.take(i + 1).filter(pred) == if pred(s[i]) {
            s.take(i).filter(pred).push(s[i])
        } else {
            s.take(i).filter(pred)
        },
{
    reveal(Seq::filter);
    assert(s.take(i + 1).drop_last() =~= s.take(i));
}

/// What a filter shows of the first `n` tasks of a well-formed store is a
/// listing of them.
pub proof fn lemma_selected_take(s: Seq<HashMapTaskView>, filter: GetTasksFilterOption, n: int)
    requires
        well_formed(s),
        0 <= n <= s.len(),
    ensures
        is_listing(selected(s.take(n), filter), s.take(n), filter),
    decreases n,
{
    let pred = |t: HashMapTaskView| keeps(filter, t);
    if n == 0 {
        reveal(Seq::filter);
        assert(s.take(0).filter(pred) =~= Seq::<HashMapTaskView>::empty());
    } else {
        lemma_selected_take(s, filter, n - 1);
        lemma_filter_take(s, pred, n - 1);
        let p = s.take(n - 1);
        let q = s.take(n);
        let rp = selected(p, filter);
        let rq = selected(q, filter);
        assert(forall|i: int| 0 <= i < n - 1 ==> p[i] == q[i]);
        assert forall|k: int| 0 <= k < rq.len() implies keeps(filter, #[trigger] rq[k])
            && rq[k].order < q.len() && q[rq[k].order as int] == rq[k] by {
            if k < rp.len() {
                assert(rq[k] == rp[k]);
                assert(p[rp[k].order as int] == rp[k]);
            } else {
                assert(rq[k] == s[n - 1]);
            }
        }
        assert forall|i: int| 0 <= i < q.len() && keeps(filter, #[trigger] q[i]) implies exists|
            k: int,
        |
            0 <= k < rq.len() && #[trigger] rq[k] == q[i] by {
            if i < n - 1 {
                assert(keeps(filter, p[i]));
                let k = choose|k: int| 0 <= k < rp.len() && #[trigger] rp[k] == p[i];
                assert(rq[k] == q[i]);
            } else {
                assert(rq[rq.len() - 1] == q[i]);
            }
        }
        assert forall|k1: int, k2: int| 0 <= k1 < k2 < rq.len() implies (#[trigger] rq[k1]).order < (
        #[trigger] rq[k2]).order by {
            assert(rq[k1] == rp[k1]);
            if k2 < rp.len() {
                assert(rq[k2] == rp[k2]);
            } else {
                assert(rq[k2] == s[n - 1]);
                assert(rp[k1].order < p.len());
            }
        }
    }
}

/// What a filter shows of a well-formed store is a listing of it: each
/// task shown passes the filter, each task that passes is shown, and the
/// orders rise strictly.
pub proof fn lemma_selected(s: Seq<HashMapTaskView>, filter: GetTasksFilterOption)
    requires
        well_formed(s),
    ensures
        is_listing(selected(s, filter), s, filter),
{
    lemma_selected_take(s, filter, s.len() as int);
    assert(s.take(s.len() as int) =~= s);
}

/// What the tasks say that a filter shows of a well-formed store, those
/// marked for removal left out: each entry passes the filter, each active
/// task that passes is there, and none is there twice.
pub proof fn lemma_selected_tasks(s: Seq<HashMapTaskView>, filter: GetTasksFilterOption)
    requires
        well_formed(s),
        filter != GetTasksFilterOption::AllWithDeleted,
    ensures
        is_task_listing(tasks_of(selected(s, filter)), s, filter),
{
    lemma_selected(s, filter);
    let sel = selected(s, filter);
    let r = tasks_of(sel);
    assert forall|k: int| 0 <= k < r.len() implies passes(filter, #[trigger] r[k]) && has_active(
        s,
        r[k].description,
    ) by {
        assert(keeps(filter, sel[k]));
        assert(is_active_with(s[sel[k].order as int], r[k].description));
    }
    assert forall|i: int| 0 <= i < s.len() && keeps(filter, #[trigger] s[i]) implies exists|
        k: int,
    |
        0 <= k < r.len() && #[trigger] r[k] == s[i].task() by {
        let k = choose|k: int| 0 <= k < sel.len() && #[trigger] sel[k] == s[i];
        assert(r[k] == s[i].task());
    }
    assert forall|k1: int, k2: int| 0 <= k1 < k2 < r.len() implies (#[trigger] r[k1]).description
        != (#[trigger] r[k2]).description by {
        assert(sel[k1].order < sel[k2].order);
        assert(keeps(filter, sel[k1]) && keeps(filter, sel[k2]));
        assert(s[sel[k1].order as int] == sel[k1]);
        assert(s[sel[k2].order as int] == sel[k2]);
    }
}

/// A filter that every element passes keeps the whole sequence.
pub proof fn lemma_filter_keeps_all<A>(s: Seq<A>, pred: spec_fn(A) -> bool)
    requires
        forall|i: int| 0 <= i < s.len() ==> pred(#[trigger] s[i]),
    ensures
        s.filter(pred) == s,
    decreases s.len(),
{
    reveal(Seq::filter);
    if s.len() > 0 {
        let front = s.drop_last();
        assert forall|i: int| 0 <= i < front.len() implies pred(#[trigger] front[i]) by {
            assert(front[i] == s[i]);
        }
        lemma_filter_keeps_all(front, pred);
        assert(front.push(s.last()) =~= s);
    }
}

/// With the tasks marked for removal included, a listing shows the whole
/// store.
pub proof fn lemma_selected_all(s: Seq<HashMapTaskView>)
    ensures
        selected(s, GetTasksFilterOption::AllWithDeleted) == s,
{
    lemma_filter_keeps_all(
        s,
        |t: HashMapTaskView| keeps(GetTasksFilterOption::AllWithDeleted, t),
    );
}

/// Listing all of a store that was just loaded gives the tasks it was
/// loaded from, in their order.
pub proof fn lemma_loaded_listing(tasks: Seq<TaskView>)
    ensures
        tasks_of(selected(loaded(tasks), GetTasksFilterOption::All)) == tasks,
{
    let s = loaded(tasks);
    lemma_filter_keeps_all(s, |t: HashMapTaskView| keeps(GetTasksFilterOption::All, t));
    assert(tasks_of(s) =~= tasks);
}

/// A task that was added comes last in the listing of all: the listing is
/// what it was, with the new task at its end.
pub proof fn lemma_added_listing(s: Seq<HashMapTaskView>, description: Seq<char>)
    ensures
        selected(with_added(s, description), GetTasksFilterOption::All) == selected(
            s,
            GetTasksFilterOption::All,
        ).push(HashMapTaskView::added(description, s.len())),
{
    let r = with_added(s, description);
    lemma_filter_take(r, |t: HashMapTaskView| keeps(GetTasksFilterOption::All, t), s.len() as int);
    assert(r.take(s.len() as int) =~= s);
    assert(r.take(s.len() as int + 1) =~= r);
}

/// In a well-formed store an active task is found by its description.
pub proof fn lemma_active_index(s: Seq<HashMapTaskView>, description: Seq<char>, i: int)
    requires
        well_formed(s),
        0 <= i < s.len(),
        is_active_with(s[i], description),
    ensures
        has_active(s, description),
        active_index(s, description) == i,
{
    let j = active_index(s, description);
    assert(0 <= j < s.len() && is_active_with(s[j], description));
    if i < j {
        assert(s[i].description != s[j].description);
    }
    if j < i {
        assert(s[j].description != s[i].description);
    }
}

/// A store loaded from tasks with distinct descriptions is well formed and
/// unchanged.
pub proof fn lemma_loaded(tasks: Seq<TaskView>)
    requires
        distinct_descriptions(tasks),
    ensures
        well_formed(loaded(tasks)),
        !any_changed(loaded(tasks)),
        loaded(tasks).len() == tasks.len(),
{
    let s = loaded(tasks);
    assert forall|i: int, j: int|
        0 <= i < j < s.len() && (#[trigger] s[i]).is_active() && (#[trigger] s[j]).is_active()
        implies s[i].description != s[j].description by {
        assert(tasks[i].description != tasks[j].description);
    }
}

/// Adding a description that no active task has keeps the store well
/// formed.
pub proof fn lemma_with_added(s: Seq<HashMapTaskView>, description: Seq<char>)
    requires
        well_formed(s),
        !has_active(s, description),
    ensures
        well_formed(with_added(s, description)),
        has_active(with_added(s, description), description),
{
    let r = with_added(s, description);
    assert forall|i: int, j: int|
        0 <= i < j < r.len() && (#[trigger] r[i]).is_active() && (#[trigger] r[j]).is_active()
        implies r[i].description != r[j].description by {
        if j == s.len() {
            assert(r[i] == s[i]);
            assert(!is_active_with(s[i], description));
        } else {
            assert(r[i] == s[i] && r[j] == s[j]);
        }
    }
    assert(is_active_with(r[s.len() as int], description));
}

/// An update that may be applied keeps the store well formed.
pub proof fn lemma_with_update(
    s: Seq<HashMapTaskView>,
    action: ActionView,
    description: Seq<char>,
)
    requires
        well_formed(s),
        has_active(s, description),
        may_apply(s, action, description),
    ensures
        well_formed(with_update(s, action, description)),
        with_update(s, action, description).len() == s.len(),
{
    let k = active_index(s, description);
    let r = with_update(s, action, description);
    assert forall|i: int, j: int|
        0 <= i < j < r.len() && (#[trigger] r[i]).is_active() && (#[trigger] r[j]).is_active()
        implies r[i].description != r[j].description by {
        assert(s[i].order == i && s[j].order == j);
        if i != k && j != k {
            assert(r[i] == s[i] && r[j] == s[j]);
        } else {
            let other = if i == k { j } else { i };
            assert(r[other] == s[other]);
            assert(s[other].is_active());
            assert(s[k].is_active());
            match action {
                ActionView::Edit(new_description) => {
                    if new_description != description {
                        assert(!is_active_with(s[other], new_description));
                    }
                },
                _ => {},
            }
        }
    }
}

/// A store has changes once a task was added to it.
pub proof fn lemma_add_changes(s: Seq<HashMapTaskView>, description: Seq<char>)
    ensures
        any_changed(with_added(s, description)),
{
    let r = with_added(s, description);
    assert(r[s.len() as int].is_changed());
}

/// A store without changes has them after a task is toggled, deleted, or
/// given another description than it had.
pub proof fn lemma_update_changes(
    s: Seq<HashMapTaskView>,
    action: ActionView,
    description: Seq<char>,
)
    requires
        !any_changed(s),
        has_active(s, description),
        action matches ActionView::Edit(new_description) ==> new_description != description,
    ensures
        any_changed(with_update(s, action, description)),
{
    let i = active_index(s, description);
    let r = with_update(s, action, description);
    assert(!s[i].is_changed());
    assert(r[i].is_changed()) by {
        match action {
            ActionView::Edit(new_description) => {
                assert(r[i].task().description != r[i].original_task().description);
            },
            _ => {},
        }
    }
}

/// A deletion always leaves changes, whatever was changed before.
pub proof fn lemma_delete_changes(s: Seq<HashMapTaskView>, description: Seq<char>)
    requires
        has_active(s, description),
    ensures
        any_changed(with_update(s, ActionView::Delete, description)),
{
    let i = active_index(s, description);
    assert(with_update(s, ActionView::Delete, description)[i].is_changed());
}

/// A store is without changes exactly when every task was loaded from the
/// document and says what it said then.
pub proof fn lemma_unchanged(s: Seq<HashMapTaskView>)
    ensures
        !any_changed(s) <==> forall|i: int|
            0 <= i < s.len() ==> (#[trigger] s[i]).task_type == HashMapTaskType::Existing
                && s[i].task() == s[i].original_task(),
{
    if !any_changed(s) {
        assert forall|i: int| 0 <= i < s.len() implies (#[trigger] s[i]).task_type
            == HashMapTaskType::Existing && s[i].task() == s[i].original_task() by {
            assert(!s[i].is_changed());
        }
    }
}

/// Toggling a task twice gives the store back as it was.
pub proof fn lemma_toggle_twice(s: Seq<HashMapTaskView>, description: Seq<char>)
    requires
        well_formed(s),
        has_active(s, description),
    ensures
        with_update(
            with_update(s, ActionView::Toggle, description),
            ActionView::Toggle,
            description,
        ) == s,
{
    let i = active_index(s, description);
    let r = with_update(s, ActionView::Toggle, description);
    lemma_with_update(s, ActionView::Toggle, description);
    lemma_active_index(r, description, i);
    assert(with_update(r, ActionView::Toggle, description) =~= s);
}

/// Giving a task a new description and then its old one again gives the
/// store back as it was.
pub proof fn lemma_edit_back(
    s: Seq<HashMapTaskView>,
    description: Seq<char>,
    new_description: Seq<char>,
)
    requires
        well_formed(s),
        has_active(s, description),
        !has_active(s, new_description),
    ensures
        with_update(
            with_update(s, ActionView::Edit(new_description), description),
            ActionView::Edit(description),
            new_description,
        ) == s,
{
    let i = active_index(s, description);
    let forth = ActionView::Edit(new_description);
    let r = with_update(s, forth, description);
    lemma_with_update(s, forth, description);
    lemma_active_index(r, new_description, i);
    assert(with_update(r, ActionView::Edit(description), new_description) =~= s);
}

} // verus!
