//! The controller: a store together with the place where it is kept, and
//! the commands that find tasks, have the choice confirmed, change the
//! store and save it.

use crate::hash_map_task::{HashMapTaskView, Task};
use crate::interact::{step, Key, Step, TasksInteract};
use crate::store::{
    count_updates, descriptions_of, found, has_active, selected, tasks_of, well_formed,
    with_added, with_updates, ActionView, GetTasksFilterOption, TaskError, TaskUpdateAction,
};
use crate::tasklist::{task_views, TaskList, TaskListPersist};
use crate::text::{number_of, parse_number, str_eq, trim, trimmed};
use vstd::prelude::*;

verus! {

/// Which of the tasks found a command is to change.
#[derive(Debug, PartialEq, Eq, Clone, Copy, Structural)]
pub enum TasksConfirmed {
    /// None of them.
    NoTask,
    /// The one at this position.
    One(usize),
    /// All of them.
    All,
}

/// What to ask the user once a command has found its tasks.
#[derive(Debug, PartialEq, Eq, Clone, Copy, Structural)]
pub enum Prompt {
    /// Nothing was found, so there is nothing to ask.
    Nothing,
    /// Whether to change the one task found.
    ConfirmOne,
    /// Whether to change all the tasks found, or which one of them.
    ConfirmAllOrSelect,
    /// Which one of the tasks found to change.
    Select,
}

/// The answer that stands for yes.
pub open spec fn yes() -> Seq<char> {
    seq!['y']
}

/// What to ask when `count` tasks were found.
pub open spec fn prompt_for(count: nat, allow_multiple: bool) -> Prompt {
    if count == 0 {
        Prompt::Nothing
    } else if count == 1 {
        Prompt::ConfirmOne
    } else if allow_multiple {
        Prompt::ConfirmAllOrSelect
    } else {
        Prompt::Select
    }
}

/// What the user's answer chooses among `count` tasks found. `is_yes` says
/// whether the answer was yes, `selection` which number it spelled, if any.
/// One task is changed on a yes. Several are changed together on a yes
/// where that is allowed; otherwise the answer picks one of them by its
/// number, counted from 1.
pub open spec fn confirmed(
    count: nat,
    allow_multiple: bool,
    is_yes: bool,
    selection: Option<usize>,
) -> TasksConfirmed {
    if count == 0 {
        TasksConfirmed::NoTask
    } else if count == 1 {
        if is_yes {
            TasksConfirmed::One(0)
        } else {
            TasksConfirmed::NoTask
        }
    } else if allow_multiple && is_yes {
        TasksConfirmed::All
    } else {
        match selection {
            Some(n) if 1 <= n <= count => TasksConfirmed::One((n - 1) as usize),
            _ => TasksConfirmed::NoTask,
        }
    }
}

/// What `answer`, as the user typed it, chooses among `count` tasks found.
pub open spec fn answered(count: nat, allow_multiple: bool, answer: Seq<char>) -> TasksConfirmed {
    confirmed(count, allow_multiple, trim(answer) == yes(), number_of(trim(answer)))
}

/// The descriptions among `descriptions` that `choice` names.
pub open spec fn chosen(descriptions: Seq<Seq<char>>, choice: TasksConfirmed) -> Seq<Seq<char>> {
    match choice {
        TasksConfirmed::NoTask => Seq::empty(),
        TasksConfirmed::One(i) => if i < descriptions.len() {
            seq![descriptions[i as int]]
        } else {
            Seq::empty()
        },
        TasksConfirmed::All => descriptions,
    }
}

/// Tells what to ask when `count` tasks were found.
pub fn needed_prompt(count: usize, allow_multiple: bool) -> (r: Prompt)
    ensures
        r == prompt_for(count as nat, allow_multiple),
{
    if count == 0 {
        Prompt::Nothing
    } else if count == 1 {
        Prompt::ConfirmOne
    } else if allow_multiple {
        Prompt::ConfirmAllOrSelect
    } else {
        Prompt::Select
    }
}

/// Tells what an answer chooses among `count` tasks found, given whether it
/// was yes and which number it spelled.
pub fn decide(count: usize, allow_multiple: bool, is_yes: bool, selection: Option<usize>) -> (r:
    TasksConfirmed)
    ensures
        r == confirmed(count as nat, allow_multiple, is_yes, selection),
        r matches TasksConfirmed::One(i) ==> i < count,
{
    if count == 0 {
        TasksConfirmed::NoTask
    } else if count == 1 {
        if is_yes {
            TasksConfirmed::One(0)
        } else {
            TasksConfirmed::NoTask
        }
    } else if allow_multiple && is_yes {
        TasksConfirmed::All
    } else {
        match selection {
            Some(n) => if 1 <= n && n <= count {
                TasksConfirmed::One(n - 1)
            } else {
                TasksConfirmed::NoTask
            },
            None => TasksConfirmed::NoTask,
        }
    }
}

/// Tells what `answer`, as the user typed it, chooses among the `count`
/// tasks found. White space around the answer does not count.
pub fn confirm_one_or_many(count: usize, allow_multiple: bool, answer: &str) -> (r: TasksConfirmed)
    ensures
        r == answered(count as nat, allow_multiple, answer@),
        r matches TasksConfirmed::One(i) ==> i < count,
{
    let answer = trimmed(answer);
    let is_yes = str_eq(answer.as_str(), "y");
    proof {
        reveal_strlit("y");
        assert("y"@ =~= yes());
    }
    let selection = parse_number(answer.as_str());
    decide(count, allow_multiple, is_yes, selection)
}

/// A store and the place where it is kept.
pub struct TaskIO<S: TaskListPersist> {
    storage: S,
    tasklist: TaskList,
}

impl<S: TaskListPersist> TaskIO<S> {
    /// The tasks of the store.
    pub closed spec fn tasks(&self) -> Seq<HashMapTaskView> {
        self.tasklist@
    }

    /// The place where the store is kept.
    pub closed spec fn storage(&self) -> S {
        self.storage
    }

    /// Whether the store is well formed.
    pub open spec fn wf(&self) -> bool {
        well_formed(self.tasks())
    }

    /// The controller of `tasklist`, kept in `storage`.
    pub fn with_tasklist(storage: S, tasklist: TaskList) -> (r: TaskIO<S>)
        ensures
            r.tasks() == tasklist@,
            r.storage() == storage,
    {
        TaskIO { storage, tasklist }
    }

    /// Loads the store from `storage`, once. On success the controller
    /// holds the store that was loaded and the storage as loading left it;
    /// on failure the error is the one that loading gave.
    pub fn new(storage: S) -> (r: Result<TaskIO<S>, TaskError>)
        ensures
            (match r {
                Ok(controller) => controller.wf() && S::loads(
                    &storage,
                    &controller.storage(),
                    Ok(controller.tasks()),
                ),
                Err(e) => exists|after: S| #[trigger] S::loads(&storage, &after, Err(e)),
            }),
    {
        let mut loaded = storage;
        match loaded.load_tasklist() {
            Ok(tasklist) => Ok(TaskIO::with_tasklist(loaded, tasklist)),
            Err(e) => {
                assert(S::loads(&storage, &loaded, Err(e)));
                Err(e)
            },
        }
    }

    /// The store.
    pub fn get_tasklist(&self) -> (r: &TaskList)
        ensures
            r@ == self.tasks(),
    {
        &self.tasklist
    }

    /// The place where the store is kept.
    pub fn get_storage(&self) -> (r: &S)
        ensures
            *r == self.storage(),
    {
        &self.storage
    }

    /// Saves the store, once. The store stays as it is; the storage
    /// becomes what saving this store makes of it, and the result is the
    /// one that saving gave.
    pub fn save(&mut self) -> (r: Result<(), TaskError>)
        requires
            old(self).wf(),
        ensures
            final(self).tasks() == old(self).tasks(),
            S::saves(&old(self).storage(), old(self).tasks(), &final(self).storage(), r),
    {
        self.storage.save_tasklist(&self.tasklist)
    }

    /// Adds a task and saves the store. Refused, with nothing changed and
    /// nothing saved, when an active task already has `description`;
    /// otherwise the task is in the store, whether or not saving succeeds.
    pub fn add(&mut self, description: &str) -> (r: Result<(), TaskError>)
        requires
            old(self).wf(),
        ensures
            final(self).wf(),
            has_active(old(self).tasks(), description@) ==> r == Err::<(), TaskError>(
                TaskError::DuplicateTask,
            ) && final(self).tasks() == old(self).tasks(),
            has_active(old(self).tasks(), description@) ==> final(self).storage() == old(self).storage(),
            !has_active(old(self).tasks(), description@) ==> final(self).tasks() == with_added(
                old(self).tasks(),
                description@,
            ),
    {
        match self.tasklist.add_task(description) {
            Err(e) => Err(e),
            Ok(()) => self.save(),
        }
    }

    /// Hands a key to the interactive listing, and saves the store when the
    /// key ends the session with the changes to be saved. The session and
    /// the store change as the key says; nothing is saved on any other
    /// step. On success the result is the step that the key made.
    pub fn list(&mut self, session: &mut TasksInteract, key: Key) -> (r: Result<Step, TaskError>)
        requires
            old(self).wf(),
            old(session).wf(),
        ensures
            final(self).wf(),
            final(session).wf(),
            final(session)@ == step(old(session)@, old(self).tasks(), key).session,
            final(self).tasks() == step(old(session)@, old(self).tasks(), key).store,
            r is Ok ==> r->Ok_0 == step(old(session)@, old(self).tasks(), key).step,
            step(old(session)@, old(self).tasks(), key).step != Step::Save ==> r is Ok,
            step(old(session)@, old(self).tasks(), key).step != Step::Save ==> final(self).storage()
                == old(self).storage(),
    {
        let made = session.interact(&mut self.tasklist, key);
        if made == Step::Save {
            match self.save() {
                Ok(()) => Ok(made),
                Err(e) => Err(e),
            }
        } else {
            Ok(made)
        }
    }

    /// Applies `action` to those of `tasks` that `choice` names, each found
    /// by its description and skipped when it cannot be changed, and saves
    /// the store. On success the result is the number of tasks changed.
    pub fn make_update(
        &mut self,
        tasks: &Vec<Task>,
        action: &TaskUpdateAction,
        choice: TasksConfirmed,
    ) -> (r: Result<usize, TaskError>)
        requires
            old(self).wf(),
        ensures
            final(self).wf(),
            final(self).tasks() == with_updates(
                old(self).tasks(),
                action@,
                chosen(descriptions_of(task_views(tasks@)), choice),
            ),
            r is Ok ==> r->Ok_0 == count_updates(
                old(self).tasks(),
                action@,
                chosen(descriptions_of(task_views(tasks@)), choice),
            ),
    {
        let ghost all = descriptions_of(task_views(tasks@));
        let ghost names = chosen(all, choice);
        let ghost start = self.tasks();
        let mut updated: usize = 0;
        match choice {
            TasksConfirmed::NoTask => {},
            TasksConfirmed::One(i) => {
                if i < tasks.len() {
                    proof {
                        assert(names.drop_last() =~= Seq::<Seq<char>>::empty());
                        assert(names.last() == tasks@[i as int]@.description);
                        assert(with_updates(start, action@, names.drop_last()) == start);
                        assert(count_updates(start, action@, names.drop_last()) == 0);
                    }
                    if self.tasklist.try_update_task(action, tasks[i].description.as_str()).is_ok() {
                        updated = 1;
                    }
                }
            },
            TasksConfirmed::All => {
                let mut k: usize = 0;
                while k < tasks.len()
                    invariant
                        k <= tasks.len(),
                        updated <= k,
                        all == descriptions_of(task_views(tasks@)),
                        well_formed(self.tasks()),
                        self.tasks() == with_updates(start, action@, all.take(k as int)),
                        updated == count_updates(start, action@, all.take(k as int)),
                    decreases tasks.len() - k,
                {
                    proof {
                        assert(all.take(k + 1).drop_last() =~= all.take(k as int));
                        assert(all.take(k + 1).last() == tasks@[k as int]@.description);
                    }
                    if self.tasklist.try_update_task(action, tasks[k].description.as_str()).is_ok() {
                        updated += 1;
                    }
                    k += 1;
                }
                assert(all.take(k as int) =~= all);
            },
        }
        assert(self.tasks() == with_updates(start, action@, names));
        assert(updated == count_updates(start, action@, names));
        match self.save() {
            Ok(()) => Ok(updated),
            Err(e) => Err(e),
        }
    }

    /// Toggles tasks and saves the store. The tasks to choose among are
    /// all the active ones where `all` is set, else those not done;
    /// `answer` chooses among them, and may choose them all.
    pub fn toggle(&mut self, all: bool, answer: &str) -> (r: Result<usize, TaskError>)
        requires
            old(self).wf(),
        ensures
            final(self).wf(),
            ({
                let filter = if all {
                    GetTasksFilterOption::All
                } else {
                    GetTasksFilterOption::Incomplete
                };
                let tasks = tasks_of(selected(old(self).tasks(), filter));
                let names = chosen(descriptions_of(tasks), answered(tasks.len(), true, answer@));
                &&& final(self).tasks() == with_updates(
                    old(self).tasks(),
                    ActionView::Toggle,
                    names,
                )
                &&& r is Ok ==> r->Ok_0 == count_updates(
                    old(self).tasks(),
                    ActionView::Toggle,
                    names,
                )
            }),
    {
        let filter = if all {
            GetTasksFilterOption::All
        } else {
            GetTasksFilterOption::Incomplete
        };
        let tasks = self.tasklist.get_tasks(filter);
        let choice = confirm_one_or_many(tasks.len(), true, answer);
        self.make_update(&tasks, &TaskUpdateAction::Toggle, choice)
    }

    /// Deletes tasks and saves the store. The tasks to choose among are
    /// the active ones whose description mentions `partial_desc`; `answer`
    /// chooses among them, and may choose them all.
    pub fn delete(&mut self, partial_desc: &str, answer: &str) -> (r: Result<usize, TaskError>)
        requires
            old(self).wf(),
        ensures
            final(self).wf(),
            ({
                let tasks = tasks_of(
                    found(old(self).tasks(), partial_desc@, GetTasksFilterOption::All),
                );
                let names = chosen(descriptions_of(tasks), answered(tasks.len(), true, answer@));
                &&& final(self).tasks() == with_updates(
                    old(self).tasks(),
                    ActionView::Delete,
                    names,
                )
                &&& r is Ok ==> r->Ok_0 == count_updates(
                    old(self).tasks(),
                    ActionView::Delete,
                    names,
                )
            }),
    {
        let tasks = self.tasklist.find_by_desc(partial_desc, GetTasksFilterOption::All);
        let choice = confirm_one_or_many(tasks.len(), true, answer);
        self.make_update(&tasks, &TaskUpdateAction::Delete, choice)
    }

    /// Gives one task the description `new_description` and saves the
    /// store. The tasks to choose among are the active ones whose
    /// description mentions `partial_desc`; `answer` chooses one of them.
    /// The task stays as it is when another active task already has the
    /// new description.
    pub fn edit(&mut self, partial_desc: &str, answer: &str, new_description: &str) -> (r: Result<
        usize,
        TaskError,
    >)
        requires
            old(self).wf(),
        ensures
            final(self).wf(),
            ({
                let tasks = tasks_of(
                    found(old(self).tasks(), partial_desc@, GetTasksFilterOption::All),
                );
                let names = chosen(descriptions_of(tasks), answered(tasks.len(), false, answer@));
                let action = ActionView::Edit(new_description@);
                &&& final(self).tasks() == with_updates(old(self).tasks(), action, names)
                &&& r is Ok ==> r->Ok_0 == count_updates(old(self).tasks(), action, names)
            }),
    {
        let tasks = self.tasklist.find_by_desc(partial_desc, GetTasksFilterOption::All);
        let choice = confirm_one_or_many(tasks.len(), false, answer);
        let action = TaskUpdateAction::Edit(new_description.to_owned());
        self.make_update(&tasks, &action, choice)
    }
}

} // verus!
