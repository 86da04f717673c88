//! The interactive session as a state machine: what to draw for a state,
//! and what a key makes of the state and of the store.

use crate::hash_map_task::{HashMapTaskType, HashMapTaskView, Task, TaskView};
use crate::store::{
    has_active, is_active_with, lemma_selected, lemma_selected_all, lemma_with_added, lemma_with_update,
    selected, tasks_of, well_formed, with_added, with_update, ActionView, GetTasksFilterOption,
    TaskUpdateAction,
};
use crate::tasklist::{borrowed_views, task_views, TaskList};
use crate::text::{is_control, is_printable, with_char, without_last};
use vstd::prelude::*;

verus! {

/// A key as the session sees it.
#[derive(Debug, PartialEq, Eq, Clone, Copy, Structural)]
pub enum Key {
    /// A character key.
    Char(char),
    Enter,
    Escape,
    Backspace,
    /// Any other key.
    Other,
}

/// What the session is doing.
#[derive(Debug, PartialEq, Eq)]
pub enum Mode {
    /// Browsing the list.
    List,
    /// Typing a new description for the task under the cursor.
    Edit(String),
    /// Typing the description of a new task.
    Add(String),
    /// Asked whether to save the changes.
    ConfirmSave,
    /// Asked whether to discard the changes.
    ConfirmDiscard,
}

/// The mathematical value of a [`Mode`].
pub enum ModeView {
    List,
    Edit(Seq<char>),
    Add(Seq<char>),
    ConfirmSave,
    ConfirmDiscard,
}

impl View for Mode {
    type V = ModeView;

    open spec fn view(&self) -> ModeView {
        match self {
            Mode::List => ModeView::List,
            Mode::Edit(buffer) => ModeView::Edit(buffer@),
            Mode::Add(buffer) => ModeView::Add(buffer@),
            Mode::ConfirmSave => ModeView::ConfirmSave,
            Mode::ConfirmDiscard => ModeView::ConfirmDiscard,
        }
    }
}

/// How a key left the session.
#[derive(Debug, PartialEq, Eq, Clone, Copy, Structural)]
pub enum Step {
    /// The session goes on.
    Continue,
    /// The session goes on; the description typed was refused because
    /// another active task has it.
    Rejected,
    /// The session is over and the changes are to be saved.
    Save,
    /// The session is over and the changes are to be dropped.
    Discard,
}

/// The state of a session.
#[derive(Debug)]
pub struct TasksInteract {
    list_option: GetTasksFilterOption,
    height: usize,
    cursor: usize,
    mode: Mode,
    changed: bool,
}

/// The mathematical value of a [`TasksInteract`].
pub struct SessionView {
    /// Which tasks the list shows.
    pub list_option: GetTasksFilterOption,
    /// The number of lines that the last frame wrote.
    pub height: nat,
    /// The position of the cursor in the list shown.
    pub cursor: nat,
    pub mode: ModeView,
    /// Whether the session has changed the store.
    pub changed: bool,
}

impl View for TasksInteract {
    type V = SessionView;

    closed spec fn view(&self) -> SessionView {
        SessionView {
            list_option: self.list_option,
            height: self.height as nat,
            cursor: self.cursor as nat,
            mode: self.mode@,
            changed: self.changed,
        }
    }
}

/// One row of the list: a task, and whether the cursor is on it.
#[derive(Debug, PartialEq, Eq)]
pub struct ListRow {
    pub selected: bool,
    pub task: Task,
}

/// One row of the summary of changes: what a task says now, what it said
/// when it was loaded or created, and how it came to be in the store.
#[derive(Debug, PartialEq, Eq)]
pub struct DiffRow {
    pub task_type: HashMapTaskType,
    pub task: Task,
    pub original: Task,
}

/// One line of a frame.
#[derive(Debug, PartialEq, Eq)]
pub enum Line {
    /// The notice that the list shown is empty.
    NoTasks,
    /// A row of the list.
    Item(ListRow),
    /// A row of the summary of changes.
    Diff(DiffRow),
    /// The question whether to save the changes.
    AskSave,
    /// The question whether to discard the changes.
    AskDiscard,
}

/// The mathematical value of a [`Line`].
pub enum LineView {
    NoTasks,
    Item { selected: bool, task: TaskView },
    Diff { task_type: HashMapTaskType, task: TaskView, original: TaskView },
    AskSave,
    AskDiscard,
}

impl View for Line {
    type V = LineView;

    open spec fn view(&self) -> LineView {
        match self {
            Line::NoTasks => LineView::NoTasks,
            Line::Item(row) => LineView::Item { selected: row.selected, task: row.task@ },
            Line::Diff(row) => LineView::Diff {
                task_type: row.task_type,
                task: row.task@,
                original: row.original@,
            },
            Line::AskSave => LineView::AskSave,
            Line::AskDiscard => LineView::AskDiscard,
        }
    }
}

/// What to draw: how many lines of the last frame to clear first, the
/// lines to write, and the text being typed, which stands on a line of its
/// own that is not counted and is shown with the cursor of the terminal.
#[derive(Debug)]
pub struct Frame {
    pub clear: usize,
    pub lines: Vec<Line>,
    pub input: Option<String>,
}

/// The values of `lines`.
pub open spec fn frame_lines(lines: Seq<Line>) -> Seq<LineView> {
    lines.map_values(|l: Line| l@)
}

/// The rows of the list for the tasks `shown`, with the cursor at
/// `cursor`; the notice alone where there are none.
pub open spec fn list_lines(shown: Seq<TaskView>, cursor: nat) -> Seq<LineView> {
    if shown.len() == 0 {
        seq![LineView::NoTasks]
    } else {
        Seq::new(shown.len(), |i: int| LineView::Item { selected: i == cursor, task: shown[i] })
    }
}

/// The rows of the summary of changes: one for each task of the store, in
/// their order, those marked for removal included.
pub open spec fn diff_lines(store: Seq<HashMapTaskView>) -> Seq<LineView> {
    Seq::new(
        store.len(),
        |i: int|
            LineView::Diff {
                task_type: store[i].task_type,
                task: store[i].task(),
                original: store[i].original_task(),
            },
    )
}

/// The lines to write for a session and its store.
pub open spec fn screen_lines(v: SessionView, store: Seq<HashMapTaskView>) -> Seq<LineView> {
    match v.mode {
        ModeView::List => list_lines(tasks_of(selected(store, v.list_option)), v.cursor),
        ModeView::Edit(_) => Seq::empty(),
        ModeView::Add(_) => Seq::empty(),
        ModeView::ConfirmSave => diff_lines(store).push(LineView::AskSave),
        ModeView::ConfirmDiscard => diff_lines(store).push(LineView::AskDiscard),
    }
}

/// The text being typed, if any.
pub open spec fn input_of(v: SessionView) -> Option<Seq<char>> {
    match v.mode {
        ModeView::Edit(buffer) => Some(buffer),
        ModeView::Add(buffer) => Some(buffer),
        _ => None,
    }
}

/// A session, a store and a step: what a key leaves behind.
pub struct Transition {
    pub session: SessionView,
    pub store: Seq<HashMapTaskView>,
    pub step: Step,
}

/// The state in which every session starts: browsing all active tasks,
/// with the cursor on the first, nothing drawn and nothing changed.
pub open spec fn initial() -> SessionView {
    SessionView {
        list_option: GetTasksFilterOption::All,
        height: 0,
        cursor: 0,
        mode: ModeView::List,
        changed: false,
    }
}

/// The filter after the key that switches `wanted` on or off.
pub open spec fn switched(
    current: GetTasksFilterOption,
    wanted: GetTasksFilterOption,
) -> GetTasksFilterOption {
    if current == wanted {
        GetTasksFilterOption::All
    } else {
        wanted
    }
}

/// The cursor one row down in a list of `n` rows; past the last row it is
/// back on the first.
pub open spec fn cursor_down(cursor: nat, n: nat) -> nat {
    if cursor + 1 < n {
        cursor + 1
    } else {
        0
    }
}

/// The cursor one row up in a list of `n` rows; before the first row, or
/// from beyond the list, it is on the last.
pub open spec fn cursor_up(cursor: nat, n: nat) -> nat {
    if n == 0 {
        0
    } else if cursor == 0 || cursor >= n {
        (n - 1) as nat
    } else {
        (cursor - 1) as nat
    }
}

/// The description of the task under the cursor, if the cursor is on a row
/// of the list shown.
pub open spec fn under_cursor(v: SessionView, store: Seq<HashMapTaskView>) -> Option<Seq<char>> {
    let shown = selected(store, v.list_option);
    if v.cursor < shown.len() {
        Some(shown[v.cursor as int].description)
    } else {
        None
    }
}

/// The session and the store after `action` on the task under the cursor.
/// Nothing happens where the cursor is on no row.
pub open spec fn acted(v: SessionView, store: Seq<HashMapTaskView>, action: ActionView) -> Transition {
    match under_cursor(v, store) {
        Some(description) => Transition {
            session: SessionView { changed: true, ..v },
            store: with_update(store, action, description),
            step: Step::Continue,
        },
        None => Transition { session: v, store, step: Step::Continue },
    }
}

/// What leaving the list makes of the session: with nothing changed it is
/// over at once and nothing is saved; otherwise the user is asked first.
pub open spec fn left(v: SessionView, store: Seq<HashMapTaskView>, ask: ModeView) -> Transition {
    if v.changed {
        Transition { session: SessionView { mode: ask, ..v }, store, step: Step::Continue }
    } else {
        Transition { session: v, store, step: Step::Discard }
    }
}

/// What a key makes of a session that is browsing the list.
pub open spec fn list_step(v: SessionView, store: Seq<HashMapTaskView>, key: Key) -> Transition {
    let stay = Transition { session: v, store, step: Step::Continue };
    let n = selected(store, v.list_option).len();
    match key {
        Key::Char(c) => if c == 'a' {
            Transition { session: SessionView { mode: ModeView::Add(Seq::empty()), ..v }, ..stay }
        } else if c == 'c' {
            Transition {
                session: SessionView {
                    list_option: switched(v.list_option, GetTasksFilterOption::Completed),
                    ..v
                },
                ..stay
            }
        } else if c == 'i' {
            Transition {
                session: SessionView {
                    list_option: switched(v.list_option, GetTasksFilterOption::Incomplete),
                    ..v
                },
                ..stay
            }
        } else if c == 'j' {
            Transition { session: SessionView { cursor: cursor_down(v.cursor, n), ..v }, ..stay }
        } else if c == 'k' {
            Transition { session: SessionView { cursor: cursor_up(v.cursor, n), ..v }, ..stay }
        } else if c == ' ' {
            acted(v, store, ActionView::Toggle)
        } else if c == 'd' {
            acted(v, store, ActionView::Delete)
        } else if c == 'e' {
            match under_cursor(v, store) {
                Some(description) => Transition {
                    session: SessionView { mode: ModeView::Edit(description), ..v },
                    ..stay
                },
                None => stay,
            }
        } else {
            stay
        },
        Key::Enter => left(v, store, ModeView::ConfirmSave),
        Key::Escape => left(v, store, ModeView::ConfirmDiscard),
        _ => stay,
    }
}

/// What committing `buffer` makes of the session and the store. The
/// session is back in the list in every case. An empty buffer changes
/// nothing, for a description is never empty. A buffer that is the
/// description of another active task is refused. Otherwise the task under
/// the cursor gets the buffer as its description where `is_edit` is set,
/// and a task with that description is added where it is not.
pub open spec fn committed(
    v: SessionView,
    store: Seq<HashMapTaskView>,
    buffer: Seq<char>,
    is_edit: bool,
) -> Transition {
    let back = SessionView { mode: ModeView::List, ..v };
    let done = SessionView { mode: ModeView::List, changed: true, ..v };
    let nothing = Transition { session: back, store, step: Step::Continue };
    let refused = Transition { session: back, store, step: Step::Rejected };
    if buffer.len() == 0 {
        nothing
    } else if is_edit {
        match under_cursor(v, store) {
            None => nothing,
            Some(description) => if buffer != description && has_active(store, buffer) {
                refused
            } else {
                Transition {
                    session: done,
                    store: with_update(store, ActionView::Edit(buffer), description),
                    step: Step::Continue,
                }
            },
        }
    } else if has_active(store, buffer) {
        refused
    } else {
        Transition { session: done, store: with_added(store, buffer), step: Step::Continue }
    }
}

/// The mode in which `buffer` is being typed.
pub open spec fn typing(buffer: Seq<char>, is_edit: bool) -> ModeView {
    if is_edit {
        ModeView::Edit(buffer)
    } else {
        ModeView::Add(buffer)
    }
}

/// What a key makes of a session in which `buffer` is being typed.
pub open spec fn add_edit_step(
    v: SessionView,
    store: Seq<HashMapTaskView>,
    buffer: Seq<char>,
    is_edit: bool,
    key: Key,
) -> Transition {
    let stay = Transition { session: v, store, step: Step::Continue };
    match key {
        Key::Enter => committed(v, store, buffer, is_edit),
        Key::Escape => Transition { session: SessionView { mode: ModeView::List, ..v }, ..stay },
        Key::Backspace => if buffer.len() > 0 {
            Transition {
                session: SessionView { mode: typing(buffer.drop_last(), is_edit), ..v },
                ..stay
            }
        } else {
            stay
        },
        Key::Char(c) => if !is_control(c) {
            Transition {
                session: SessionView { mode: typing(buffer.push(c), is_edit), ..v },
                ..stay
            }
        } else {
            stay
        },
        _ => stay,
    }
}

/// Whether `key` answers a question with yes.
pub open spec fn is_yes(key: Key) -> bool {
    key == Key::Char('y')
}

/// What a key makes of a session that has asked whether to save (`save`)
/// or to discard: on a yes the session is over, on any other key it is back
/// in the list with nothing lost.
pub open spec fn confirm_step(
    v: SessionView,
    store: Seq<HashMapTaskView>,
    save: bool,
    key: Key,
) -> Transition {
    if is_yes(key) {
        Transition {
            session: v,
            store,
            step: if save {
                Step::Save
            } else {
                Step::Discard
            },
        }
    } else {
        Transition { session: SessionView { mode: ModeView::List, ..v }, store, step: Step::Continue }
    }
}

/// What a key makes of a session and its store.
pub open spec fn step(v: SessionView, store: Seq<HashMapTaskView>, key: Key) -> Transition {
    match v.mode {
        ModeView::List => list_step(v, store, key),
        ModeView::Edit(buffer) => add_edit_step(v, store, buffer, true, key),
        ModeView::Add(buffer) => add_edit_step(v, store, buffer, false, key),
        ModeView::ConfirmSave => confirm_step(v, store, true, key),
        ModeView::ConfirmDiscard => confirm_step(v, store, false, key),
    }
}

/// Whether `v` is a state that a session can be in: the list never shows
/// the tasks marked for removal, and the user is asked about changes only
/// where there are some.
pub open spec fn coherent(v: SessionView) -> bool {
    &&& v.list_option != GetTasksFilterOption::AllWithDeleted
    &&& v.mode is ConfirmSave || v.mode is ConfirmDiscard ==> v.changed
}

/// The task under the cursor is an active task of the store.
pub proof fn lemma_under_cursor(v: SessionView, store: Seq<HashMapTaskView>)
    requires
        well_formed(store),
        under_cursor(v, store) is Some,
        v.list_option != GetTasksFilterOption::AllWithDeleted,
    ensures
        has_active(store, under_cursor(v, store)->0),
{
    lemma_selected(store, v.list_option);
    let shown = selected(store, v.list_option);
    let t = shown[v.cursor as int];
    assert(is_active_with(store[t.order as int], t.description));
}

/// A key leaves a well-formed store well formed and the session in a state
/// it can be in. A session ends with the changes to be saved only where it
/// has made some, and a session that has changed the store never ends
/// unasked.
pub proof fn lemma_step_well_formed(v: SessionView, store: Seq<HashMapTaskView>, key: Key)
    requires
        well_formed(store),
        coherent(v),
    ensures
        well_formed(step(v, store, key).store),
        coherent(step(v, store, key).session),
        step(v, store, key).step == Step::Save ==> v.changed && v.mode is ConfirmSave,
        step(v, store, key).step == Step::Discard ==> !v.changed || v.mode is ConfirmDiscard,
        step(v, store, key).step == Step::Save || step(v, store, key).step == Step::Discard
            ==> step(v, store, key).store == store,
{
    if under_cursor(v, store) is Some {
        lemma_under_cursor(v, store);
        let d = under_cursor(v, store)->0;
        lemma_with_update(store, ActionView::Toggle, d);
        lemma_with_update(store, ActionView::Delete, d);
        match v.mode {
            ModeView::Edit(buffer) => {
                if !(buffer != d && has_active(store, buffer)) {
                    lemma_with_update(store, ActionView::Edit(buffer), d);
                }
            },
            _ => {},
        }
    }
    match v.mode {
        ModeView::Add(buffer) => {
            if !has_active(store, buffer) {
                lemma_with_added(store, buffer);
            }
        },
        _ => {},
    }
}

impl TasksInteract {
    /// Whether the state is one that a session can be in.
    pub open spec fn wf(&self) -> bool {
        coherent(self@)
    }

    /// A session in its first state.
    pub fn new() -> (r: TasksInteract)
        ensures
            r@ == initial(),
            r.wf(),
    {
        TasksInteract {
            list_option: GetTasksFilterOption::All,
            height: 0,
            cursor: 0,
            mode: Mode::List,
            changed: false,
        }
    }

    /// Which tasks the list shows.
    pub fn get_list_option(&self) -> (r: GetTasksFilterOption)
        ensures
            r == self@.list_option,
    {
        self.list_option
    }

    /// The position of the cursor in the list shown.
    pub fn get_cursor(&self) -> (r: usize)
        ensures
            r == self@.cursor,
    {
        self.cursor
    }

    /// The number of lines that the last frame wrote.
    pub fn get_height(&self) -> (r: usize)
        ensures
            r == self@.height,
    {
        self.height
    }

    /// What the session is doing.
    pub fn get_mode(&self) -> (r: &Mode)
        ensures
            r@ == self@.mode,
    {
        &self.mode
    }

    /// Whether the session has changed the store.
    pub fn has_changed(&self) -> (r: bool)
        ensures
            r == self@.changed,
    {
        self.changed
    }

    /// The rows of the list for `tasks`, with the cursor at `cursor`.
    pub fn render_list(tasks: &Vec<Task>, cursor: usize) -> (r: Vec<Line>)
        ensures
            frame_lines(r@) == list_lines(task_views(tasks@), cursor as nat),
    {
        let mut r: Vec<Line> = Vec::new();
        if tasks.len() == 0 {
            r.push(Line::NoTasks);
            assert(frame_lines(r@) =~= seq![LineView::NoTasks]);
            return r;
        }
        let mut i: usize = 0;
        while i < tasks.len()
            invariant
                i <= tasks.len(),
                r@.len() == i,
                forall|k: int|
                    0 <= k < i ==> (#[trigger] r@[k])@ == (LineView::Item {
                        selected: k == cursor,
                        task: tasks@[k]@,
                    }),
            decreases tasks.len() - i,
        {
            r.push(Line::Item(ListRow { selected: i == cursor, task: tasks[i].clone() }));
            i += 1;
        }
        assert(frame_lines(r@) =~= list_lines(task_views(tasks@), cursor as nat));
        r
    }

    /// The rows of the summary of changes for `tasklist`.
    pub fn render_diff(tasklist: &TaskList) -> (r: Vec<Line>)
        ensures
            frame_lines(r@) == diff_lines(tasklist@),
    {
        let all = tasklist.get_hash_map_tasks(GetTasksFilterOption::AllWithDeleted);
        proof {
            lemma_selected_all(tasklist@);
        }
        let mut r: Vec<Line> = Vec::new();
        let mut i: usize = 0;
        while i < all.len()
            invariant
                i <= all.len(),
                r@.len() == i,
                borrowed_views(all@) == tasklist@,
                forall|k: int|
                    0 <= k < i ==> (#[trigger] r@[k])@ == (LineView::Diff {
                        task_type: tasklist@[k].task_type,
                        task: tasklist@[k].task(),
                        original: tasklist@[k].original_task(),
                    }),
            decreases all.len() - i,
        {
            let t = all[i];
            assert(borrowed_views(all@)[i as int] == t@);
            r.push(
                Line::Diff(
                    DiffRow {
                        task_type: t.get_type(),
                        task: t.get_task(),
                        original: t.get_original_task(),
                    },
                ),
            );
            i += 1;
        }
        assert(frame_lines(r@) =~= diff_lines(tasklist@));
        r
    }

    /// What to draw now. The frame clears the lines that the last frame
    /// wrote, and the session remembers how many lines this one writes.
    pub fn frame(&mut self, tasklist: &TaskList) -> (r: Frame)
        ensures
            r.clear == old(self)@.height,
            frame_lines(r.lines@) == screen_lines(old(self)@, tasklist@),
            r.input is Some == input_of(old(self)@) is Some,
            r.input is Some ==> r.input->0@ == input_of(old(self)@)->0,
            final(self)@ == (SessionView { height: r.lines@.len(), ..old(self)@ }),
            old(self).wf() ==> final(self).wf(),
    {
        let clear = self.height;
        let mut input: Option<String> = None;
        let lines = match &self.mode {
            Mode::List => {
                let tasks = tasklist.get_tasks(self.list_option);
                TasksInteract::render_list(&tasks, self.cursor)
            },
            Mode::Edit(buffer) => {
                input = Some(buffer.clone());
                Vec::new()
            },
            Mode::Add(buffer) => {
                input = Some(buffer.clone());
                Vec::new()
            },
            Mode::ConfirmSave => {
                let mut lines = TasksInteract::render_diff(tasklist);
                let ghost before = frame_lines(lines@);
                lines.push(Line::AskSave);
                assert(frame_lines(lines@) =~= before.push(LineView::AskSave));
                lines
            },
            Mode::ConfirmDiscard => {
                let mut lines = TasksInteract::render_diff(tasklist);
                let ghost before = frame_lines(lines@);
                lines.push(Line::AskDiscard);
                assert(frame_lines(lines@) =~= before.push(LineView::AskDiscard));
                lines
            },
        };
        assert(frame_lines(lines@) =~= screen_lines(self@, tasklist@));
        self.height = lines.len();
        Frame { clear, lines, input }
    }

    /// Whether `key` answers a question with yes.
    pub fn confirm(key: Key) -> (r: bool)
        ensures
            r == is_yes(key),
    {
        match key {
            Key::Char(c) => c == 'y',
            _ => false,
        }
    }

    /// The description of the task under the cursor, if any.
    fn task_under_cursor(&self, tasklist: &TaskList) -> (r: Option<String>)
        requires
            tasklist.wf(),
            self.wf(),
        ensures
            r is Some == under_cursor(self@, tasklist@) is Some,
            r is Some ==> r->0@ == under_cursor(self@, tasklist@)->0 && has_active(
                tasklist@,
                r->0@,
            ),
    {
        let shown = tasklist.get_hash_map_tasks(self.list_option);
        if self.cursor < shown.len() {
            proof {
                assert(borrowed_views(shown@)[self.cursor as int] == shown@[self.cursor as int]@);
                lemma_under_cursor(self@, tasklist@);
            }
            Some(shown[self.cursor].get_key())
        } else {
            None
        }
    }

    /// Applies `action` to the task under the cursor, if any.
    fn act(&mut self, tasklist: &mut TaskList, action: &TaskUpdateAction)
        requires
            old(tasklist).wf(),
            old(self).wf(),
            !(action@ is Edit),
        ensures
            final(tasklist).wf(),
            final(self)@ == acted(old(self)@, old(tasklist)@, action@).session,
            final(tasklist)@ == acted(old(self)@, old(tasklist)@, action@).store,
    {
        match self.task_under_cursor(tasklist) {
            Some(description) => {
                let _ = tasklist.update_task(action, description.as_str());
                self.changed = true;
            },
            None => {},
        }
    }

    /// Handles a key while the list is browsed.
    pub fn list_mode(&mut self, tasklist: &mut TaskList, key: Key) -> (r: Step)
        requires
            old(tasklist).wf(),
            old(self).wf(),
            old(self)@.mode is List,
        ensures
            final(tasklist).wf(),
            final(self).wf(),
            final(self)@ == list_step(old(self)@, old(tasklist)@, key).session,
            final(tasklist)@ == list_step(old(self)@, old(tasklist)@, key).store,
            r == list_step(old(self)@, old(tasklist)@, key).step,
    {
        proof {
            lemma_step_well_formed(self@, tasklist@, key);
        }
        match key {
            Key::Char(c) => {
                if c == 'a' {
                    self.mode = Mode::Add(String::new());
                } else if c == 'c' {
                    self.list_option = match self.list_option {
                        GetTasksFilterOption::Completed => GetTasksFilterOption::All,
                        _ => GetTasksFilterOption::Completed,
                    };
                } else if c == 'i' {
                    self.list_option = match self.list_option {
                        GetTasksFilterOption::Incomplete => GetTasksFilterOption::All,
                        _ => GetTasksFilterOption::Incomplete,
                    };
                } else if c == 'j' {
                    let n = tasklist.get_hash_map_tasks(self.list_option).len();
                    self.cursor = if self.cursor < n && self.cursor + 1 < n {
                        self.cursor + 1
                    } else {
                        0
                    };
                } else if c == 'k' {
                    let n = tasklist.get_hash_map_tasks(self.list_option).len();
                    self.cursor = if n == 0 {
                        0
                    } else if self.cursor == 0 || self.cursor >= n {
                        n - 1
                    } else {
                        self.cursor - 1
                    };
                } else if c == ' ' {
                    self.act(tasklist, &TaskUpdateAction::Toggle);
                } else if c == 'd' {
                    self.act(tasklist, &TaskUpdateAction::Delete);
                } else if c == 'e' {
                    match self.task_under_cursor(tasklist) {
                        Some(description) => {
                            self.mode = Mode::Edit(description);
                        },
                        None => {},
                    }
                }
                Step::Continue
            },
            Key::Enter => {
                if self.changed {
                    self.mode = Mode::ConfirmSave;
                    Step::Continue
                } else {
                    Step::Discard
                }
            },
            Key::Escape => {
                if self.changed {
                    self.mode = Mode::ConfirmDiscard;
                    Step::Continue
                } else {
                    Step::Discard
                }
            },
            _ => Step::Continue,
        }
    }

    /// Commits what was typed.
    fn commit(&mut self, tasklist: &mut TaskList, buffer: &str, is_edit: bool) -> (r: Step)
        requires
            old(tasklist).wf(),
            old(self).wf(),
        ensures
            final(tasklist).wf(),
            final(self)@ == committed(old(self)@, old(tasklist)@, buffer@, is_edit).session,
            final(tasklist)@ == committed(old(self)@, old(tasklist)@, buffer@, is_edit).store,
            r == committed(old(self)@, old(tasklist)@, buffer@, is_edit).step,
    {
        let target = if is_edit {
            self.task_under_cursor(tasklist)
        } else {
            None
        };
        self.mode = Mode::List;
        if buffer.unicode_len() == 0 {
            return Step::Continue;
        }
        if is_edit {
            match target {
                None => Step::Continue,
                Some(description) => {
                    let action = TaskUpdateAction::Edit(buffer.to_owned());
                    match tasklist.try_update_task(&action, description.as_str()) {
                        Ok(()) => {
                            self.changed = true;
                            Step::Continue
                        },
                        Err(_) => Step::Rejected,
                    }
                },
            }
        } else {
            match tasklist.add_task(buffer) {
                Ok(()) => {
                    self.changed = true;
                    Step::Continue
                },
                Err(_) => Step::Rejected,
            }
        }
    }

    /// Handles a key while a description is typed.
    pub fn add_edit_mode(&mut self, tasklist: &mut TaskList, key: Key) -> (r: Step)
        requires
            old(tasklist).wf(),
            old(self).wf(),
            old(self)@.mode is Edit || old(self)@.mode is Add,
        ensures
            final(tasklist).wf(),
            final(self).wf(),
            ({
                let (buffer, is_edit) = match old(self)@.mode {
                    ModeView::Edit(b) => (b, true),
                    ModeView::Add(b) => (b, false),
                    _ => (Seq::empty(), false),
                };
                let t = add_edit_step(old(self)@, old(tasklist)@, buffer, is_edit, key);
                final(self)@ == t.session && final(tasklist)@ == t.store && r == t.step
            }),
    {
        let (buffer, is_edit) = match &self.mode {
            Mode::Edit(b) => (b.clone(), true),
            Mode::Add(b) => (b.clone(), false),
            _ => (String::new(), false),
        };
        match key {
            Key::Enter => self.commit(tasklist, buffer.as_str(), is_edit),
            Key::Escape => {
                self.mode = Mode::List;
                Step::Continue
            },
            Key::Backspace => {
                if buffer.as_str().unicode_len() > 0 {
                    let shorter = without_last(buffer.as_str());
                    self.mode = if is_edit {
                        Mode::Edit(shorter)
                    } else {
                        Mode::Add(shorter)
                    };
                }
                Step::Continue
            },
            Key::Char(c) => {
                if is_printable(c) {
                    let longer = with_char(buffer.as_str(), c);
                    self.mode = if is_edit {
                        Mode::Edit(longer)
                    } else {
                        Mode::Add(longer)
                    };
                }
                Step::Continue
            },
            _ => Step::Continue,
        }
    }

    /// Handles a key: what it makes of the session and of the store, and
    /// whether the session goes on.
    pub fn interact(&mut self, tasklist: &mut TaskList, key: Key) -> (r: Step)
        requires
            old(tasklist).wf(),
            old(self).wf(),
        ensures
            final(tasklist).wf(),
            final(self).wf(),
            final(self)@ == step(old(self)@, old(tasklist)@, key).session,
            final(tasklist)@ == step(old(self)@, old(tasklist)@, key).store,
            r == step(old(self)@, old(tasklist)@, key).step,
            r == Step::Save ==> old(self)@.changed,
            r == Step::Save || r == Step::Discard ==> final(tasklist)@ == old(tasklist)@,
    {
        proof {
            lemma_step_well_formed(self@, tasklist@, key);
        }
        match &self.mode {
            Mode::List => self.list_mode(tasklist, key),
            Mode::Edit(_) => self.add_edit_mode(tasklist, key),
            Mode::Add(_) => self.add_edit_mode(tasklist, key),
            Mode::ConfirmSave => {
                if TasksInteract::confirm(key) {
                    Step::Save
                } else {
                    self.mode = Mode::List;
                    Step::Continue
                }
            },
            Mode::ConfirmDiscard => {
                if TasksInteract::confirm(key) {
                    Step::Discard
                } else {
                    self.mode = Mode::List;
                    Step::Continue
                }
            },
        }
    }
}

} // verus!
