//! One task of a store: what it says now, what it said when it was loaded or
//! created, its place in the order, and how it came to be there.

use crate::text::str_eq;
use core::cmp::Ordering;
use vstd::prelude::*;
use vstd::std_specs::cmp::{PartialEqSpecImpl, PartialOrdSpecImpl};

verus! {

/// A checkbox item as a plain value: a description and whether it is done.
#[derive(Debug, PartialEq, Eq)]
pub struct Task {
    pub is_completed: bool,
    pub description: String,
}

/// The mathematical value of a [`Task`].
pub struct TaskView {
    pub is_completed: bool,
    pub description: Seq<char>,
}

impl View for Task {
    type V = TaskView;

    open spec fn view(&self) -> TaskView {
        TaskView { is_completed: self.is_completed, description: self.description@ }
    }
}

impl Clone for Task {
    fn clone(&self) -> (r: Task)
        ensures
            r@ == self@,
    {
        Task { is_completed: self.is_completed, description: self.description.clone() }
    }
}

/// How a task came to be in the store.
#[derive(Debug, PartialEq, Eq, Clone, Copy, Structural)]
pub enum HashMapTaskType {
    /// Loaded from the document.
    Existing,
    /// Created during the session; the document has no line for it.
    Added,
    /// Marked for removal; kept so that the change can be shown.
    Deleted,
}

#[derive(Debug)]
struct OriginalTask {
    is_completed: bool,
    description: String,
}

/// A task as the store holds it.
#[derive(Debug)]
pub struct HashMapTask {
    is_completed: bool,
    description: String,
    original: OriginalTask,
    order: usize,
    pub task_type: HashMapTaskType,
}

/// The mathematical value of a [`HashMapTask`].
pub struct HashMapTaskView {
    pub is_completed: bool,
    pub description: Seq<char>,
    pub original_completed: bool,
    pub original_description: Seq<char>,
    pub order: nat,
    pub task_type: HashMapTaskType,
}

impl HashMapTaskView {
    /// What the task says now.
    pub open spec fn task(self) -> TaskView {
        TaskView { is_completed: self.is_completed, description: self.description }
    }

    /// What the task said when it was loaded or created.
    pub open spec fn original_task(self) -> TaskView {
        TaskView { is_completed: self.original_completed, description: self.original_description }
    }

    /// A task loaded from the document as `task`, at place `order`.
    pub open spec fn existing(task: TaskView, order: nat) -> HashMapTaskView {
        HashMapTaskView {
            is_completed: task.is_completed,
            description: task.description,
            original_completed: task.is_completed,
            original_description: task.description,
            order,
            task_type: HashMapTaskType::Existing,
        }
    }

    /// A task created in the session with `description`, at place `order`.
    pub open spec fn added(description: Seq<char>, order: nat) -> HashMapTaskView {
        HashMapTaskView {
            is_completed: false,
            description,
            original_completed: false,
            original_description: description,
            order,
            task_type: HashMapTaskType::Added,
        }
    }

    /// Whether the task is active, that is, not marked for removal.
    pub open spec fn is_active(self) -> bool {
        self.task_type != HashMapTaskType::Deleted
    }

    /// Whether the task differs from what the document holds: it was added
    /// or deleted, or it says something else than when it was loaded.
    pub open spec fn is_changed(self) -> bool {
        self.task_type != HashMapTaskType::Existing || self.task() != self.original_task()
    }

    /// The task with its completion flipped.
    pub open spec fn toggled(self) -> HashMapTaskView {
        HashMapTaskView { is_completed: !self.is_completed, ..self }
    }

    /// The task under a new description.
    pub open spec fn renamed(self, description: Seq<char>) -> HashMapTaskView {
        HashMapTaskView { description, ..self }
    }

    /// The task marked for removal.
    pub open spec fn deleted(self) -> HashMapTaskView {
        HashMapTaskView { task_type: HashMapTaskType::Deleted, ..self }
    }
}

impl View for HashMapTask {
    type V = HashMapTaskView;

    closed spec fn view(&self) -> HashMapTaskView {
        HashMapTaskView {
            is_completed: self.is_completed,
            description: self.description@,
            original_completed: self.original.is_completed,
            original_description: self.original.description@,
            order: self.order as nat,
            task_type: self.task_type,
        }
    }
}

impl HashMapTask {
    /// A task loaded from the document, at place `order`.
    pub fn from(task: Task, order: usize) -> (r: HashMapTask)
        ensures
            r@ == HashMapTaskView::existing(task@, order as nat),
    {
        let original = OriginalTask {
            is_completed: task.is_completed,
            description: task.description.clone(),
        };
        HashMapTask {
            order,
            original,
            is_completed: task.is_completed,
            description: task.description,
            task_type: HashMapTaskType::Existing,
        }
    }

    /// A task created in the session: not done, and unchanged against
    /// itself.
    pub fn new(description: String, order: usize) -> (r: HashMapTask)
        ensures
            r@ == HashMapTaskView::added(description@, order as nat),
    {
        let original = OriginalTask { is_completed: false, description: description.clone() };
        HashMapTask {
            order,
            original,
            is_completed: false,
            description,
            task_type: HashMapTaskType::Added,
        }
    }

    /// What the task says now.
    pub fn get_task(&self) -> (r: Task)
        ensures
            r@ == self@.task(),
    {
        Task { is_completed: self.is_completed, description: self.description.clone() }
    }

    /// What the task said when it was loaded or created.
    pub fn get_original_task(&self) -> (r: Task)
        ensures
            r@ == self@.original_task(),
    {
        Task {
            is_completed: self.original.is_completed,
            description: self.original.description.clone(),
        }
    }

    /// The description by which the store finds the task.
    pub fn get_key(&self) -> (r: String)
        ensures
            r@ == self@.description,
    {
        self.description.clone()
    }

    /// The description by which the document finds the task.
    pub fn get_original_key(&self) -> (r: String)
        ensures
            r@ == self@.original_description,
    {
        self.original.description.clone()
    }

    /// The task's place in the order.
    pub fn get_order(&self) -> (r: usize)
        ensures
            r == self@.order,
    {
        self.order
    }

    /// How the task came to be in the store.
    pub fn get_type(&self) -> (r: HashMapTaskType)
        ensures
            r == self@.task_type,
    {
        self.task_type
    }

    /// Whether the task is active, that is, not marked for removal.
    pub fn is_active(&self) -> (r: bool)
        ensures
            r == self@.is_active(),
    {
        !(self.task_type == HashMapTaskType::Deleted)
    }

    /// Whether the task is done.
    pub fn is_completed(&self) -> (r: bool)
        ensures
            r == self@.is_completed,
    {
        self.is_completed
    }

    /// Whether the task's description is `description`.
    pub fn has_description(&self, description: &str) -> (r: bool)
        ensures
            r == (self@.description == description@),
    {
        str_eq(self.description.as_str(), description)
    }

    /// Whether the task was loaded or created under `description`.
    pub fn has_original_description(&self, description: &str) -> (r: bool)
        ensures
            r == (self@.original_description == description@),
    {
        str_eq(self.original.description.as_str(), description)
    }

    /// Flips the completion.
    pub fn toggle(&mut self)
        ensures
            final(self)@ == old(self)@.toggled(),
    {
        self.is_completed = !self.is_completed;
    }

    /// Gives the task a new description and returns it.
    pub fn set_description(&mut self, new_description: &str) -> (r: String)
        ensures
            final(self)@ == old(self)@.renamed(new_description@),
            r@ == new_description@,
    {
        self.description = new_description.to_owned();
        self.description.clone()
    }

    /// Marks the task for removal.
    pub fn delete(&mut self)
        ensures
            final(self)@ == old(self)@.deleted(),
    {
        self.task_type = HashMapTaskType::Deleted;
    }

    /// Whether the task differs from what the document holds.
    pub fn is_changed(&self) -> (r: bool)
        ensures
            r == self@.is_changed(),
    {
        let same = self.is_completed == self.original.is_completed && self.description
            == self.original.description;
        assert(same == (self@.task() == self@.original_task())) by {
            if self@.task() == self@.original_task() {
                assert(self@.task().description == self@.original_task().description);
            }
        }
        !(self.task_type == HashMapTaskType::Existing) || !same
    }
}

/// Two tasks count as equal when they stand at the same place in the
/// order, whatever they say.
impl PartialEq for HashMapTask {
    fn eq(&self, other: &Self) -> (r: bool) {
        self.order == other.order
    }
}

impl PartialEqSpecImpl for HashMapTask {
    open spec fn obeys_eq_spec() -> bool {
        true
    }

    open spec fn eq_spec(&self, other: &Self) -> bool {
        self@.order == other@.order
    }
}

impl Eq for HashMapTask {

}

/// A task equals a kind when it is of that kind.
impl PartialEq<HashMapTaskType> for HashMapTask {
    fn eq(&self, other: &HashMapTaskType) -> (r: bool) {
        self.task_type == *other
    }
}

impl PartialEqSpecImpl<HashMapTaskType> for HashMapTask {
    open spec fn obeys_eq_spec() -> bool {
        true
    }

    open spec fn eq_spec(&self, other: &HashMapTaskType) -> bool {
        self@.task_type == *other
    }
}

/// Tasks compare by their place in the order.
impl PartialOrd for HashMapTask {
    fn partial_cmp(&self, other: &Self) -> (r: Option<Ordering>) {
        if self.order < other.order {
            Some(Ordering::Less)
        } else if self.order == other.order {
            Some(Ordering::Equal)
        } else {
            Some(Ordering::Greater)
        }
    }
}

impl PartialOrdSpecImpl for HashMapTask {
    open spec fn obeys_partial_cmp_spec() -> bool {
        true
    }

    open spec fn partial_cmp_spec(&self, other: &Self) -> Option<Ordering> {
        if self@.order < other@.order {
            Some(Ordering::Less)
        } else if self@.order == other@.order {
            Some(Ordering::Equal)
        } else {
            Some(Ordering::Greater)
        }
    }
}

} // verus!
