//! The task store: the tasks of one session, found by their descriptions
//! and listed in their order.

use crate::checkbox::{format_line, line_task, parse_line, task_line};
use crate::document::{
    document_tasks, has_original, is_added, is_original_at, lemma_filter_map_take,
    lemma_original_index_is, rendered, rewritten_line,
};
use crate::hash_map_task::{HashMapTask, HashMapTaskType, HashMapTaskView, Task, TaskView};
use crate::text::{contains, line_views, split, split_lines, str_eq, to_lowercase};
use crate::store::{
    active_index, any_changed, applied, distinct_descriptions, has_active, is_active_with, keeps,
    found, is_listing, is_task_listing, lemma_active_index, lemma_filter_take, lemma_loaded, lemma_selected, lemma_selected_tasks,
    lemma_with_added, lemma_with_update, loaded, may_apply, mentions, selected, update_or_skip, tasks_of, well_formed,
    with_added, with_update, GetTasksFilterOption, TaskError, TaskUpdateAction,
};
use vstd::prelude::*;
use vstd::std_specs::cmp::PartialEqSpecImpl;

verus! {

/// The tasks of one session. Tasks marked for removal stay in the store, so
/// that the change can be shown and written back.
#[derive(Debug)]
pub struct TaskList {
    tasks: Vec<HashMapTask>,
}

/// What loading gave: the tasks of the store, or why there is none.
pub open spec fn load_outcome(r: Result<TaskList, TaskError>) -> Result<
    Seq<HashMapTaskView>,
    TaskError,
> {
    match r {
        Ok(tasklist) => Ok(tasklist@),
        Err(e) => Err(e),
    }
}

/// Where a store is kept between sessions. Each kind of storage says for
/// itself what loading and saving do to it; one that says nothing may do
/// anything.
pub trait TaskListPersist {
    /// Whether loading can turn the storage `before` into `after` and give
    /// `outcome`.
    open spec fn loads(
        before: &Self,
        after: &Self,
        outcome: Result<Seq<HashMapTaskView>, TaskError>,
    ) -> bool {
        true
    }

    /// Whether saving the store `tasks` can turn the storage `before` into
    /// `after` and give `outcome`.
    open spec fn saves(
        before: &Self,
        tasks: Seq<HashMapTaskView>,
        after: &Self,
        outcome: Result<(), TaskError>,
    ) -> bool {
        true
    }

    /// Loads the store, as `loads` says. What comes back on success is well
    /// formed.
    fn load_tasklist(&mut self) -> (r: Result<TaskList, TaskError>)
        ensures
            Self::loads(old(self), final(self), load_outcome(r)),
            r is Ok ==> r->Ok_0.wf(),
    ;

    /// Saves the store, as `saves` says.
    fn save_tasklist(&mut self, tasklist: &TaskList) -> (r: Result<(), TaskError>)
        requires
            tasklist.wf(),
        ensures
            Self::saves(old(self), tasklist@, final(self), r),
    ;
}

/// The values of the tasks in `tasks`.
pub open spec fn task_views(tasks: Seq<Task>) -> Seq<TaskView> {
    tasks.map_values(|t: Task| t@)
}

/// The values of the store's tasks that `tasks` refers to.
pub open spec fn borrowed_views(tasks: Seq<&HashMapTask>) -> Seq<HashMapTaskView> {
    tasks.map_values(|t: &HashMapTask| t@)
}

/// The values of the store's tasks in `tasks`.
pub open spec fn entry_views(tasks: Seq<HashMapTask>) -> Seq<HashMapTaskView> {
    tasks.map_values(|t: HashMapTask| t@)
}

impl View for TaskList {
    type V = Seq<HashMapTaskView>;

    closed spec fn view(&self) -> Seq<HashMapTaskView> {
        entry_views(self.tasks@)
    }
}

impl TaskList {
    /// Whether the store is well formed: each task's order is its position,
    /// and no two active tasks share a description.
    pub open spec fn wf(&self) -> bool {
        well_formed(self@)
    }

    /// The empty store.
    pub fn new() -> (r: TaskList)
        ensures
            r.wf(),
            r@ == Seq::<HashMapTaskView>::empty(),
    {
        let r = TaskList { tasks: Vec::new() };
        assert(r@ =~= Seq::<HashMapTaskView>::empty());
        r
    }

    /// The store of `tasks` as loaded from a document, in the order given.
    /// Refused when two of them share a description.
    pub fn from(tasks: Vec<Task>) -> (r: Result<TaskList, TaskError>)
        ensures
            distinct_descriptions(task_views(tasks@)) ==> r is Ok && r->Ok_0@ == loaded(
                task_views(tasks@),
            ),
            !distinct_descriptions(task_views(tasks@)) ==> r is Err && r->Err_0
                == TaskError::DuplicateTask,
            r is Ok ==> r->Ok_0.wf() && !any_changed(r->Ok_0@),
    {
        let ghost all = task_views(tasks@);
        let mut list = TaskList { tasks: Vec::new() };
        let mut i: usize = 0;
        assert(list@ =~= loaded(all.take(0)));
        while i < tasks.len()
            invariant
                i <= tasks.len(),
                all == task_views(tasks@),
                distinct_descriptions(all.take(i as int)),
                list@ == loaded(all.take(i as int)),
            decreases tasks.len() - i,
        {
            let task = tasks[i].clone();
            assert(task@ == all[i as int]);
            match list.find_active(task.description.as_str()) {
                Some(j) => {
                    assert(all[j as int].description == all[i as int].description);
                    return Err(TaskError::DuplicateTask);
                },
                None => {
                    assert forall|a: int, b: int| 0 <= a < b < i + 1 implies (#[trigger] all.take(
                        i + 1,
                    )[a]).description != (#[trigger] all.take(i + 1)[b]).description by {
                        if b == i {
                            assert(!is_active_with(list@[a], task@.description));
                        } else {
                            assert(all.take(i as int)[a].description != all.take(
                                i as int,
                            )[b].description);
                        }
                    }
                    let ghost before = list@;
                    list.tasks.push(HashMapTask::from(task, i));
                    assert(list@ =~= before.push(
                        HashMapTaskView::existing(all[i as int], i as nat),
                    ));
                    assert(list@ =~= loaded(all.take(i + 1)));
                },
            }
            i += 1;
        }
        proof {
            assert(all.take(i as int) =~= all);
            lemma_loaded(all);
        }
        Ok(list)
    }

    /// The store of the tasks that the checkbox lines of `lines` hold, in
    /// the order of the lines. Refused when two lines hold the same
    /// description.
    pub fn from_markdown(lines: &Vec<String>) -> (r: Result<TaskList, TaskError>)
        ensures
            distinct_descriptions(document_tasks(line_views(lines@))) ==> r is Ok && r->Ok_0@
                == loaded(document_tasks(line_views(lines@))),
            !distinct_descriptions(document_tasks(line_views(lines@))) ==> r is Err && r->Err_0
                == TaskError::AmbiguousDocument,
            r is Ok ==> r->Ok_0.wf() && !any_changed(r->Ok_0@),
    {
        let ghost all = line_views(lines@);
        let ghost f = |l: Seq<char>| line_task(l);
        let mut tasks: Vec<Task> = Vec::new();
        let mut i: usize = 0;
        assert(task_views(tasks@) =~= all.take(0).filter_map(f));
        while i < lines.len()
            invariant
                i <= lines.len(),
                all == line_views(lines@),
                f == |l: Seq<char>| line_task(l),
                task_views(tasks@) == all.take(i as int).filter_map(f),
            decreases lines.len() - i,
        {
            proof {
                lemma_filter_map_take(all, f, i as int);
            }
            match parse_line(lines[i].as_str()) {
                Some(task) => {
                    let ghost before = task_views(tasks@);
                    tasks.push(task);
                    assert(task_views(tasks@) =~= before.push(task@));
                },
                None => {},
            }
            i += 1;
        }
        assert(all.take(i as int) =~= all);
        match TaskList::from(tasks) {
            Ok(list) => Ok(list),
            Err(_) => Err(TaskError::AmbiguousDocument),
        }
    }

    /// The store of the tasks that the lines of `content` hold, where a
    /// line ends at each line feed. Refused when two lines hold the same
    /// description.
    pub fn from_string(content: &str) -> (r: Result<TaskList, TaskError>)
        ensures
            distinct_descriptions(document_tasks(split_lines(content@))) ==> r is Ok && r->Ok_0@
                == loaded(document_tasks(split_lines(content@))),
            !distinct_descriptions(document_tasks(split_lines(content@))) ==> r is Err
                && r->Err_0 == TaskError::AmbiguousDocument,
            r is Ok ==> r->Ok_0.wf() && !any_changed(r->Ok_0@),
    {
        let lines = split(content);
        TaskList::from_markdown(&lines)
    }

    /// The position of the first task that was loaded or created under
    /// `description`.
    fn find_original(&self, description: &str) -> (r: Option<usize>)
        ensures
            match r {
                Some(i) => is_original_at(self@, description@, i as int),
                None => !has_original(self@, description@),
            },
    {
        let mut i: usize = 0;
        while i < self.tasks.len()
            invariant
                i <= self.tasks.len(),
                forall|j: int|
                    0 <= j < i ==> (#[trigger] self@[j]).original_description != description@,
            decreases self.tasks.len() - i,
        {
            if self.tasks[i].has_original_description(description) {
                return Some(i);
            }
            i += 1;
        }
        None
    }

    /// What becomes of `line` when the store is written back: the line to
    /// keep in its place, if any.
    fn rewrite_line(&self, line: &String) -> (r: Option<String>)
        ensures
            r is Some == rewritten_line(line@, self@) is Some,
            r is Some ==> r->0@ == rewritten_line(line@, self@)->0,
    {
        match parse_line(line.as_str()) {
            None => Some(line.clone()),
            Some(task) => match self.find_original(task.description.as_str()) {
                None => None,
                Some(i) => {
                    proof {
                        lemma_original_index_is(self@, task@.description, i as int);
                    }
                    if self.tasks[i].is_active() {
                        Some(format_line(&self.tasks[i].get_task()))
                    } else {
                        None
                    }
                },
            },
        }
    }

    /// Writes the store back into the document `lines`. Lines that are no
    /// checkbox lines stay where they are. Each checkbox line is rewritten
    /// from the task that was loaded from it, or dropped when that task is
    /// marked for removal or missing. The added tasks follow at the end, in
    /// their order.
    pub fn to_markdown(&self, lines: &mut Vec<String>) -> (r: Result<(), TaskError>)
        ensures
            r is Ok,
            line_views(final(lines)@) == rendered(line_views(old(lines)@), self@),
    {
        let ghost all = line_views(lines@);
        let ghost f = |l: Seq<char>| rewritten_line(l, self@);
        let mut out: Vec<String> = Vec::new();
        let mut i: usize = 0;
        assert(line_views(out@) =~= all.take(0).filter_map(f));
        while i < lines.len()
            invariant
                i <= lines.len(),
                all == line_views(lines@),
                f == |l: Seq<char>| rewritten_line(l, self@),
                line_views(out@) == all.take(i as int).filter_map(f),
            decreases lines.len() - i,
        {
            proof {
                lemma_filter_map_take(all, f, i as int);
            }
            match self.rewrite_line(&lines[i]) {
                Some(line) => {
                    let ghost before = line_views(out@);
                    out.push(line);
                    assert(line_views(out@) =~= before.push(line@));
                },
                None => {},
            }
            i += 1;
        }
        assert(all.take(i as int) =~= all);
        let ghost kept = line_views(out@);
        let ghost pred = |t: HashMapTaskView| is_added(t);
        let ghost g = |t: HashMapTaskView| task_line(t.task());
        let mut k: usize = 0;
        proof {
            reveal(Seq::filter);
            assert(self@.take(0).filter(pred).map_values(g) =~= Seq::<Seq<char>>::empty());
            assert(line_views(out@) =~= kept + self@.take(0).filter(pred).map_values(g));
        }
        while k < self.tasks.len()
            invariant
                k <= self.tasks.len(),
                pred == |t: HashMapTaskView| is_added(t),
                g == |t: HashMapTaskView| task_line(t.task()),
                line_views(out@) == kept + self@.take(k as int).filter(pred).map_values(g),
            decreases self.tasks.len() - k,
        {
            proof {
                lemma_filter_take(self@, pred, k as int);
            }
            let t = &self.tasks[k];
            if t.get_type() == HashMapTaskType::Added {
                let ghost before = line_views(out@);
                let line = format_line(&t.get_task());
                out.push(line);
                assert(line_views(out@) =~= before.push(line@));
                assert(self@.take(k + 1).filter(pred).map_values(g) =~= self@.take(
                    k as int,
                ).filter(pred).map_values(g).push(line@));
                assert(line_views(out@) =~= kept + self@.take(k + 1).filter(pred).map_values(g));
            }
            k += 1;
        }
        assert(self@.take(k as int) =~= self@);
        *lines = out;
        Ok(())
    }

    /// The number of tasks in the store, those marked for removal included.
    pub fn len(&self) -> (r: usize)
        ensures
            r == self@.len(),
    {
        self.tasks.len()
    }

    /// The position of the active task described by `description`.
    fn find_active(&self, description: &str) -> (r: Option<usize>)
        ensures
            match r {
                Some(i) => i < self@.len() && is_active_with(self@[i as int], description@),
                None => !has_active(self@, description@),
            },
    {
        let mut i: usize = 0;
        while i < self.tasks.len()
            invariant
                i <= self.tasks.len(),
                forall|j: int| 0 <= j < i ==> !is_active_with(#[trigger] self@[j], description@),
            decreases self.tasks.len() - i,
        {
            let t = &self.tasks[i];
            if t.is_active() && t.has_description(description) {
                return Some(i);
            }
            i += 1;
        }
        None
    }

    /// Whether an active task has `description`.
    pub fn has_task(&self, description: &str) -> (r: bool)
        ensures
            r == has_active(self@, description@),
    {
        self.find_active(description).is_some()
    }

    /// The active task described by `description`, if there is one.
    pub fn get(&self, description: &str) -> (r: Option<&HashMapTask>)
        ensures
            r is Some == has_active(self@, description@),
            r is Some ==> is_active_with(r->0@, description@) && self@.contains(r->0@),
            r is Some && self.wf() ==> r->0@ == self@[active_index(self@, description@)],
    {
        match self.find_active(description) {
            Some(i) => {
                proof {
                    if self.wf() {
                        lemma_active_index(self@, description@, i as int);
                    }
                }
                Some(&self.tasks[i])
            },
            None => None,
        }
    }

    /// Adds a task described by `description`: not done, and placed after
    /// every task that the store holds or has held. Refused, with the store
    /// left as it was, when an active task already has that description.
    pub fn add_task(&mut self, description: &str) -> (r: Result<(), TaskError>)
        requires
            old(self).wf(),
        ensures
            final(self).wf(),
            has_active(old(self)@, description@) ==> r == Err::<(), TaskError>(
                TaskError::DuplicateTask,
            ) && final(self)@ == old(self)@,
            !has_active(old(self)@, description@) ==> r is Ok && final(self)@ == with_added(
                old(self)@,
                description@,
            ),
    {
        if self.has_task(description) {
            return Err(TaskError::DuplicateTask);
        }
        let order = self.tasks.len();
        self.tasks.push(HashMapTask::new(description.to_owned(), order));
        proof {
            lemma_with_added(old(self)@, description@);
            assert(self@ =~= with_added(old(self)@, description@));
        }
        Ok(())
    }

    /// Applies `action` to the active task described by `description`.
    /// Fails, with the store left as it was, when there is no such task.
    pub fn update_task(&mut self, action: &TaskUpdateAction, description: &str) -> (r: Result<
        (),
        TaskError,
    >)
        requires
            old(self).wf(),
            may_apply(old(self)@, action@, description@),
        ensures
            final(self).wf(),
            has_active(old(self)@, description@) ==> r is Ok && final(self)@ == with_update(
                old(self)@,
                action@,
                description@,
            ),
            !has_active(old(self)@, description@) ==> r == Err::<(), TaskError>(
                TaskError::NotFound,
            ) && final(self)@ == old(self)@,
    {
        match self.find_active(description) {
            None => Err(TaskError::NotFound),
            Some(i) => {
                proof {
                    lemma_active_index(self@, description@, i as int);
                    lemma_with_update(self@, action@, description@);
                }
                match action {
                    TaskUpdateAction::Toggle => {
                        self.tasks[i].toggle();
                    },
                    TaskUpdateAction::Delete => {
                        self.tasks[i].delete();
                    },
                    TaskUpdateAction::Edit(new_description) => {
                        let _ = self.tasks[i].set_description(new_description.as_str());
                    },
                }
                assert(self@ =~= with_update(old(self)@, action@, description@));
                Ok(())
            },
        }
    }

    /// Applies `action` to the active task described by `description`, if
    /// there is one and the action may be applied to it. Fails, with the
    /// store left as it was, when there is no such task, or when the action
    /// would give it the description of another active task.
    pub fn try_update_task(&mut self, action: &TaskUpdateAction, description: &str) -> (r: Result<
        (),
        TaskError,
    >)
        requires
            old(self).wf(),
        ensures
            final(self).wf(),
            final(self)@ == update_or_skip(old(self)@, action@, description@),
            !has_active(old(self)@, description@) ==> r == Err::<(), TaskError>(
                TaskError::NotFound,
            ),
            has_active(old(self)@, description@) && !may_apply(old(self)@, action@, description@)
                ==> r == Err::<(), TaskError>(TaskError::DuplicateTask),
            has_active(old(self)@, description@) && may_apply(old(self)@, action@, description@)
                ==> r is Ok,
    {
        if !self.has_task(description) {
            return Err(TaskError::NotFound);
        }
        let allowed = match action {
            TaskUpdateAction::Edit(new_description) => str_eq(
                new_description.as_str(),
                description,
            ) || !self.has_task(new_description.as_str()),
            _ => true,
        };
        if !allowed {
            return Err(TaskError::DuplicateTask);
        }
        self.update_task(action, description)
    }

    /// The tasks that `filter` shows, in their order.
    pub fn get_hash_map_tasks(&self, filter: GetTasksFilterOption) -> (r: Vec<&HashMapTask>)
        ensures
            borrowed_views(r@) == selected(self@, filter),
            self.wf() ==> is_listing(borrowed_views(r@), self@, filter),
    {
        let ghost pred = |t: HashMapTaskView| keeps(filter, t);
        let mut r: Vec<&HashMapTask> = Vec::new();
        let mut i: usize = 0;
        proof {
            reveal(Seq::filter);
            assert(borrowed_views(r@) =~= self@.take(0).filter(pred));
        }
        while i < self.tasks.len()
            invariant
                i <= self.tasks.len(),
                pred == |t: HashMapTaskView| keeps(filter, t),
                borrowed_views(r@) == self@.take(i as int).filter(pred),
            decreases self.tasks.len() - i,
        {
            let t = &self.tasks[i];
            let show = match filter {
                GetTasksFilterOption::All => t.is_active(),
                GetTasksFilterOption::Completed => t.is_active() && t.is_completed(),
                GetTasksFilterOption::Incomplete => t.is_active() && !t.is_completed(),
                GetTasksFilterOption::AllWithDeleted => true,
            };
            proof {
                lemma_filter_take(self@, pred, i as int);
            }
            if show {
                let ghost before = borrowed_views(r@);
                r.push(t);
                assert(borrowed_views(r@) =~= before.push(t@));
            }
            i += 1;
        }
        proof {
            assert(self@.take(i as int) =~= self@);
            if self.wf() {
                lemma_selected(self@, filter);
            }
        }
        r
    }

    /// What the tasks that `filter` shows say now, in their order.
    pub fn get_tasks(&self, filter: GetTasksFilterOption) -> (r: Vec<Task>)
        ensures
            task_views(r@) == tasks_of(selected(self@, filter)),
            self.wf() && filter != GetTasksFilterOption::AllWithDeleted ==> is_task_listing(
                task_views(r@),
                self@,
                filter,
            ),
    {
        proof {
            if self.wf() && filter != GetTasksFilterOption::AllWithDeleted {
                lemma_selected_tasks(self@, filter);
            }
        }
        let found = self.get_hash_map_tasks(filter);
        let mut r: Vec<Task> = Vec::new();
        let mut i: usize = 0;
        while i < found.len()
            invariant
                i <= found.len(),
                r@.len() == i,
                forall|k: int| 0 <= k < i ==> (#[trigger] r@[k])@ == found@[k]@.task(),
            decreases found.len() - i,
        {
            r.push(found[i].get_task());
            i += 1;
        }
        assert(task_views(r@) =~= tasks_of(borrowed_views(found@)));
        r
    }

    /// What the tasks say that `filter` shows and whose description mentions
    /// `partial`, in their order. Upper and lower case count as the same.
    pub fn find_by_desc(&self, partial: &str, filter: GetTasksFilterOption) -> (r: Vec<Task>)
        ensures
            task_views(r@) == tasks_of(found(self@, partial@, filter)),
    {
        let shown = self.get_hash_map_tasks(filter);
        let needle = to_lowercase(partial);
        let ghost all = borrowed_views(shown@);
        let ghost pred = |t: HashMapTaskView| mentions(t.description, partial@);
        let mut r: Vec<Task> = Vec::new();
        let mut i: usize = 0;
        proof {
            reveal(Seq::filter);
            assert(task_views(r@) =~= tasks_of(all.take(0).filter(pred)));
        }
        while i < shown.len()
            invariant
                i <= shown.len(),
                all == borrowed_views(shown@),
                needle@ == crate::text::lowercase(partial@),
                pred == |t: HashMapTaskView| mentions(t.description, partial@),
                task_views(r@) == tasks_of(all.take(i as int).filter(pred)),
            decreases shown.len() - i,
        {
            proof {
                lemma_filter_take(all, pred, i as int);
            }
            let hay = to_lowercase(shown[i].get_key().as_str());
            if contains(hay.as_str(), needle.as_str()) {
                let ghost before = task_views(r@);
                let task = shown[i].get_task();
                r.push(task);
                assert(task_views(r@) =~= before.push(task@));
                assert(tasks_of(all.take(i + 1).filter(pred)) =~= tasks_of(
                    all.take(i as int).filter(pred),
                ).push(all[i as int].task()));
            }
            i += 1;
        }
        assert(all.take(i as int) =~= all);
        r
    }

    /// Whether any task differs from what the document holds: a task was
    /// added or deleted, or one says something else than when it was loaded.
    pub fn has_changes(&self) -> (r: bool)
        ensures
            r == any_changed(self@),
    {
        let mut i: usize = 0;
        while i < self.tasks.len()
            invariant
                i <= self.tasks.len(),
                forall|j: int| 0 <= j < i ==> !(#[trigger] self@[j]).is_changed(),
            decreases self.tasks.len() - i,
        {
            if self.tasks[i].is_changed() {
                assert(self@[i as int].is_changed());
                return true;
            }
            i += 1;
        }
        false
    }
}

/// Whether `a` and `b` hold the same descriptions at the same places.
pub open spec fn same_keys(a: Seq<HashMapTaskView>, b: Seq<HashMapTaskView>) -> bool {
    &&& a.len() == b.len()
    &&& forall|i: int|
        0 <= i < a.len() ==> (#[trigger] a[i]).description == b[i].description && a[i].order
            == b[i].order
}

/// Two stores count as equal when they find the same descriptions at the
/// same places in the order.
impl PartialEq for TaskList {
    fn eq(&self, other: &Self) -> (r: bool) {
        if self.tasks.len() != other.tasks.len() {
            return false;
        }
        let mut i: usize = 0;
        while i < self.tasks.len()
            invariant
                i <= self.tasks.len(),
                self.tasks.len() == other.tasks.len(),
                same_keys(self@.take(i as int), other@.take(i as int)),
            decreases self.tasks.len() - i,
        {
            let a = &self.tasks[i];
            let b = &other.tasks[i];
            if a.get_order() != b.get_order() || a.get_key() != b.get_key() {
                assert(!(self@[i as int].description == other@[i as int].description
                    && self@[i as int].order == other@[i as int].order));
                return false;
            }
            assert forall|j: int| 0 <= j < i + 1 implies (#[trigger] self@.take(
                i + 1,
            )[j]).description == other@.take(i + 1)[j].description && self@.take(i + 1)[j].order
                == other@.take(i + 1)[j].order by {
                if j < i {
                    assert(self@.take(i as int)[j].description == other@.take(
                        i as int,
                    )[j].description);
                }
            }
            i += 1;
        }
        assert(self@.take(i as int) =~= self@ && other@.take(i as int) =~= other@);
        true
    }
}

impl PartialEqSpecImpl for TaskList {
    open spec fn obeys_eq_spec() -> bool {
        true
    }

    open spec fn eq_spec(&self, other: &Self) -> bool {
        same_keys(self@, other@)
    }
}

} // verus!
