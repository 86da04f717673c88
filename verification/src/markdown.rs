//! The document in memory: its path and its lines, from which a store is
//! loaded and into which it is written back.

use crate::document::{document_tasks, rendered};
use crate::hash_map_task::HashMapTaskView;
use crate::store::{any_changed, distinct_descriptions, loaded, TaskError};
use crate::tasklist::{TaskList, TaskListPersist};
use crate::text::{join, join_lines, line_views, split, split_lines};
use vstd::prelude::*;

verus! {

/// A document: where it lies, and the lines it holds.
pub struct File<'a> {
    pub path: &'a str,
    lines: Vec<String>,
}

impl<'a> File<'a> {
    /// The lines of the document.
    pub closed spec fn lines(&self) -> Seq<Seq<char>> {
        line_views(self.lines@)
    }

    /// The path of the document.
    pub closed spec fn spec_path(&self) -> Seq<char> {
        self.path@
    }

    /// The document at `path`, with no lines yet.
    pub fn from(path: &'a str) -> (r: File<'a>)
        ensures
            r.spec_path() == path@,
            r.lines() == Seq::<Seq<char>>::empty(),
    {
        let r = File { path, lines: Vec::new() };
        assert(r.lines() =~= Seq::<Seq<char>>::empty());
        r
    }

    /// The path of the document.
    pub fn get_path(&self) -> (r: &'a str)
        ensures
            r@ == self.spec_path(),
    {
        self.path
    }

    /// Takes `contents` as the text of the document: its lines are the
    /// pieces between the line feeds, each kept as it is.
    pub fn set_contents(&mut self, contents: &str)
        ensures
            final(self).lines() == split_lines(contents@),
            final(self).spec_path() == old(self).spec_path(),
    {
        self.lines = split(contents);
    }

    /// The text of the document: its lines with a line feed between each
    /// two.
    pub fn contents(&self) -> (r: String)
        ensures
            r@ == join_lines(self.lines()),
    {
        join(&self.lines)
    }

    /// The lines of the document.
    pub fn get_lines(&self) -> (r: &Vec<String>)
        ensures
            line_views(r@) == self.lines(),
    {
        &self.lines
    }
}

impl<'a> TaskListPersist for File<'a> {
    /// Loading leaves the document as it is. It gives the store of the
    /// tasks that the checkbox lines hold, and fails where two of them hold
    /// the same description.
    open spec fn loads(
        before: &Self,
        after: &Self,
        outcome: Result<Seq<HashMapTaskView>, TaskError>,
    ) -> bool {
        &&& after.lines() == before.lines()
        &&& after.spec_path() == before.spec_path()
        &&& outcome == if distinct_descriptions(document_tasks(before.lines())) {
            Ok::<Seq<HashMapTaskView>, TaskError>(loaded(document_tasks(before.lines())))
        } else {
            Err::<Seq<HashMapTaskView>, TaskError>(TaskError::AmbiguousDocument)
        }
    }

    /// Saving always succeeds, and writes the store back into the lines of
    /// the document.
    open spec fn saves(
        before: &Self,
        tasks: Seq<HashMapTaskView>,
        after: &Self,
        outcome: Result<(), TaskError>,
    ) -> bool {
        &&& outcome is Ok
        &&& after.lines() == rendered(before.lines(), tasks)
        &&& after.spec_path() == before.spec_path()
    }

    /// Loads the store from the lines of the document, which stay as they
    /// are. Fails when two lines hold the same description.
    fn load_tasklist(&mut self) -> (r: Result<TaskList, TaskError>)
        ensures
            final(self).lines() == old(self).lines(),
            final(self).spec_path() == old(self).spec_path(),
            distinct_descriptions(document_tasks(old(self).lines())) ==> r is Ok && r->Ok_0@
                == loaded(document_tasks(old(self).lines())),
            !distinct_descriptions(document_tasks(old(self).lines())) ==> r is Err && r->Err_0
                == TaskError::AmbiguousDocument,
            r is Ok ==> !any_changed(r->Ok_0@),
    {
        TaskList::from_markdown(&self.lines)
    }

    /// Writes the store back into the lines of the document.
    fn save_tasklist(&mut self, tasklist: &TaskList) -> (r: Result<(), TaskError>)
        ensures
            r is Ok,
            final(self).lines() == rendered(old(self).lines(), tasklist@),
            final(self).spec_path() == old(self).spec_path(),
    {
        tasklist.to_markdown(&mut self.lines)
    }
}

} // verus!
