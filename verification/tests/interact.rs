use taskmd::hash_map_task::{HashMapTaskType, Task};
use taskmd::interact::{DiffRow, Frame, Key, Line, ListRow, Mode, Step, TasksInteract};
use taskmd::store::GetTasksFilterOption;
use taskmd::tasklist::TaskList;

fn task(description: &str, is_completed: bool) -> Task {
    Task { is_completed, description: description.to_string() }
}

fn store() -> TaskList {
    TaskList::from(vec![task("a", false), task("b", true), task("c", false)]).unwrap()
}

fn item(selected: bool, description: &str, is_completed: bool) -> Line {
    Line::Item(ListRow { selected, task: task(description, is_completed) })
}

fn diff(kind: HashMapTaskType, now: Task, original: Task) -> Line {
    Line::Diff(DiffRow { task_type: kind, task: now, original })
}

fn press(session: &mut TasksInteract, tasklist: &mut TaskList, keys: &str) {
    for c in keys.chars() {
        assert_eq!(session.interact(tasklist, Key::Char(c)), Step::Continue);
    }
}

fn all(tasklist: &TaskList) -> Vec<Task> {
    tasklist.get_tasks(GetTasksFilterOption::All)
}

#[test]
fn a_session_starts_browsing_everything() {
    let session = TasksInteract::new();
    assert_eq!(session.get_list_option(), GetTasksFilterOption::All);
    assert_eq!(session.get_cursor(), 0);
    assert_eq!(session.get_height(), 0);
    assert_eq!(session.get_mode(), &Mode::List);
    assert!(!session.has_changed());
}

#[test]
fn filter_keys_switch_between_a_filter_and_all() {
    let mut tasklist = store();
    let mut session = TasksInteract::new();
    press(&mut session, &mut tasklist, "c");
    assert_eq!(session.get_list_option(), GetTasksFilterOption::Completed);
    press(&mut session, &mut tasklist, "c");
    assert_eq!(session.get_list_option(), GetTasksFilterOption::All);
    press(&mut session, &mut tasklist, "i");
    assert_eq!(session.get_list_option(), GetTasksFilterOption::Incomplete);
    press(&mut session, &mut tasklist, "c");
    assert_eq!(session.get_list_option(), GetTasksFilterOption::Completed);
    press(&mut session, &mut tasklist, "i");
    assert_eq!(session.get_list_option(), GetTasksFilterOption::Incomplete);
    press(&mut session, &mut tasklist, "i");
    assert_eq!(session.get_list_option(), GetTasksFilterOption::All);
    assert!(!session.has_changed());
}

#[test]
fn cursor_wraps_at_both_ends() {
    let mut tasklist = store();
    let mut session = TasksInteract::new();
    press(&mut session, &mut tasklist, "k");
    assert_eq!(session.get_cursor(), 2);
    press(&mut session, &mut tasklist, "j");
    assert_eq!(session.get_cursor(), 0);
    press(&mut session, &mut tasklist, "jj");
    assert_eq!(session.get_cursor(), 2);
    press(&mut session, &mut tasklist, "k");
    assert_eq!(session.get_cursor(), 1);
    press(&mut session, &mut tasklist, "c");
    press(&mut session, &mut tasklist, "k");
    assert_eq!(session.get_cursor(), 0);
    press(&mut session, &mut tasklist, "j");
    assert_eq!(session.get_cursor(), 0);
}

#[test]
fn cursor_stays_put_in_an_empty_list() {
    let mut tasklist = TaskList::new();
    let mut session = TasksInteract::new();
    press(&mut session, &mut tasklist, "jk de");
    assert_eq!(session.get_cursor(), 0);
    assert_eq!(session.get_mode(), &Mode::List);
    assert!(!session.has_changed());
    assert_eq!(tasklist.len(), 0);
}

#[test]
fn space_toggles_the_task_under_the_cursor() {
    let mut tasklist = store();
    let mut session = TasksInteract::new();
    press(&mut session, &mut tasklist, "j ");
    assert!(session.has_changed());
    assert_eq!(all(&tasklist), vec![task("a", false), task("b", false), task("c", false)]);
    press(&mut session, &mut tasklist, " ");
    assert_eq!(all(&tasklist), vec![task("a", false), task("b", true), task("c", false)]);
    assert!(session.has_changed());
}

#[test]
fn d_deletes_the_task_under_the_cursor_at_once() {
    let mut tasklist = store();
    let mut session = TasksInteract::new();
    press(&mut session, &mut tasklist, "jjd");
    assert!(session.has_changed());
    assert_eq!(all(&tasklist), vec![task("a", false), task("b", true)]);
    assert_eq!(session.get_cursor(), 2);
    press(&mut session, &mut tasklist, " d");
    assert_eq!(all(&tasklist), vec![task("a", false), task("b", true)]);
    press(&mut session, &mut tasklist, "kd");
    assert_eq!(all(&tasklist), vec![task("a", false)]);
}

#[test]
fn keys_act_on_the_filtered_list() {
    let mut tasklist = store();
    let mut session = TasksInteract::new();
    press(&mut session, &mut tasklist, "ij ");
    assert_eq!(all(&tasklist), vec![task("a", false), task("b", true), task("c", true)]);
}

#[test]
fn enter_without_changes_ends_the_session() {
    let mut tasklist = store();
    let mut session = TasksInteract::new();
    assert_eq!(session.interact(&mut tasklist, Key::Enter), Step::Discard);
    assert_eq!(session.interact(&mut tasklist, Key::Escape), Step::Discard);
    assert_eq!(session.get_mode(), &Mode::List);
}

#[test]
fn enter_with_changes_asks_before_saving() {
    let mut tasklist = store();
    let mut session = TasksInteract::new();
    press(&mut session, &mut tasklist, " ");
    assert_eq!(session.interact(&mut tasklist, Key::Enter), Step::Continue);
    assert_eq!(session.get_mode(), &Mode::ConfirmSave);
    assert_eq!(session.interact(&mut tasklist, Key::Char('n')), Step::Continue);
    assert_eq!(session.get_mode(), &Mode::List);
    assert!(session.has_changed());
    assert_eq!(all(&tasklist)[0], task("a", true));
    assert_eq!(session.interact(&mut tasklist, Key::Enter), Step::Continue);
    assert_eq!(session.interact(&mut tasklist, Key::Enter), Step::Continue);
    assert_eq!(session.get_mode(), &Mode::List);
    assert_eq!(session.interact(&mut tasklist, Key::Enter), Step::Continue);
    assert_eq!(session.interact(&mut tasklist, Key::Char('y')), Step::Save);
}

#[test]
fn escape_with_changes_asks_before_discarding() {
    let mut tasklist = store();
    let mut session = TasksInteract::new();
    press(&mut session, &mut tasklist, "d");
    assert_eq!(session.interact(&mut tasklist, Key::Escape), Step::Continue);
    assert_eq!(session.get_mode(), &Mode::ConfirmDiscard);
    assert_eq!(session.interact(&mut tasklist, Key::Escape), Step::Continue);
    assert_eq!(session.get_mode(), &Mode::List);
    assert_eq!(session.interact(&mut tasklist, Key::Escape), Step::Continue);
    assert_eq!(session.interact(&mut tasklist, Key::Char('y')), Step::Discard);
}

#[test]
fn a_reverted_change_still_counts_as_changed() {
    let mut tasklist = store();
    let mut session = TasksInteract::new();
    press(&mut session, &mut tasklist, "  ");
    assert!(!tasklist.has_changes());
    assert!(session.has_changed());
    assert_eq!(session.interact(&mut tasklist, Key::Enter), Step::Continue);
    assert_eq!(session.get_mode(), &Mode::ConfirmSave);
}

#[test]
fn editing_starts_with_the_description_and_takes_keys() {
    let mut tasklist = store();
    let mut session = TasksInteract::new();
    press(&mut session, &mut tasklist, "je");
    assert_eq!(session.get_mode(), &Mode::Edit("b".to_string()));
    press(&mut session, &mut tasklist, "ee é");
    assert_eq!(session.get_mode(), &Mode::Edit("bee é".to_string()));
    assert_eq!(session.interact(&mut tasklist, Key::Backspace), Step::Continue);
    assert_eq!(session.get_mode(), &Mode::Edit("bee ".to_string()));
    assert_eq!(session.interact(&mut tasklist, Key::Char('\u{7}')), Step::Continue);
    assert_eq!(session.interact(&mut tasklist, Key::Char('\u{7f}')), Step::Continue);
    assert_eq!(session.interact(&mut tasklist, Key::Other), Step::Continue);
    assert_eq!(session.get_mode(), &Mode::Edit("bee ".to_string()));
    assert_eq!(session.interact(&mut tasklist, Key::Backspace), Step::Continue);
    assert_eq!(session.interact(&mut tasklist, Key::Enter), Step::Continue);
    assert_eq!(session.get_mode(), &Mode::List);
    assert!(session.has_changed());
    assert_eq!(all(&tasklist), vec![task("a", false), task("bee", true), task("c", false)]);
    assert_eq!(tasklist.get("bee").unwrap().get_original_key(), "b");
}

#[test]
fn backspace_on_an_empty_buffer_does_nothing() {
    let mut tasklist = store();
    let mut session = TasksInteract::new();
    press(&mut session, &mut tasklist, "a");
    assert_eq!(session.interact(&mut tasklist, Key::Backspace), Step::Continue);
    assert_eq!(session.get_mode(), &Mode::Add(String::new()));
}

#[test]
fn escape_drops_what_was_typed() {
    let mut tasklist = store();
    let mut session = TasksInteract::new();
    press(&mut session, &mut tasklist, "exyz");
    assert_eq!(session.interact(&mut tasklist, Key::Escape), Step::Continue);
    assert_eq!(session.get_mode(), &Mode::List);
    assert!(!session.has_changed());
    assert_eq!(all(&tasklist)[0], task("a", false));
}

#[test]
fn editing_to_another_tasks_description_is_rejected() {
    let mut tasklist = store();
    let mut session = TasksInteract::new();
    press(&mut session, &mut tasklist, "e");
    assert_eq!(session.interact(&mut tasklist, Key::Backspace), Step::Continue);
    press(&mut session, &mut tasklist, "c");
    assert_eq!(session.interact(&mut tasklist, Key::Enter), Step::Rejected);
    assert_eq!(session.get_mode(), &Mode::List);
    assert!(!session.has_changed());
    assert_eq!(all(&tasklist), vec![task("a", false), task("b", true), task("c", false)]);
}

#[test]
fn editing_to_the_same_description_is_applied() {
    let mut tasklist = store();
    let mut session = TasksInteract::new();
    press(&mut session, &mut tasklist, "e");
    assert_eq!(session.interact(&mut tasklist, Key::Enter), Step::Continue);
    assert!(session.has_changed());
    assert!(!tasklist.has_changes());
}

#[test]
fn an_empty_buffer_is_never_applied() {
    let mut tasklist = store();
    let mut session = TasksInteract::new();
    press(&mut session, &mut tasklist, "e");
    assert_eq!(session.interact(&mut tasklist, Key::Backspace), Step::Continue);
    assert_eq!(session.interact(&mut tasklist, Key::Enter), Step::Continue);
    assert_eq!(session.get_mode(), &Mode::List);
    assert!(!session.has_changed());
    press(&mut session, &mut tasklist, "a");
    assert_eq!(session.interact(&mut tasklist, Key::Enter), Step::Continue);
    assert!(!session.has_changed());
    assert_eq!(tasklist.len(), 3);
}

#[test]
fn adding_appends_a_task_or_is_rejected() {
    let mut tasklist = store();
    let mut session = TasksInteract::new();
    press(&mut session, &mut tasklist, "anew");
    assert_eq!(session.get_mode(), &Mode::Add("new".to_string()));
    assert_eq!(session.interact(&mut tasklist, Key::Enter), Step::Continue);
    assert!(session.has_changed());
    assert_eq!(all(&tasklist).len(), 4);
    assert_eq!(tasklist.get("new").unwrap().get_order(), 3);
    assert_eq!(tasklist.get("new").unwrap().get_type(), HashMapTaskType::Added);

    let mut session = TasksInteract::new();
    press(&mut session, &mut tasklist, "ab");
    assert_eq!(session.interact(&mut tasklist, Key::Enter), Step::Rejected);
    assert!(!session.has_changed());
    assert_eq!(tasklist.len(), 4);
}

#[test]
fn list_frames_clear_what_the_last_frame_wrote() {
    let mut tasklist = store();
    let mut session = TasksInteract::new();
    let Frame { clear, lines, input } = session.frame(&tasklist);
    assert_eq!(clear, 0);
    assert_eq!(input, None);
    assert_eq!(lines, vec![item(true, "a", false), item(false, "b", true), item(false, "c", false)]);
    assert_eq!(session.get_height(), 3);

    press(&mut session, &mut tasklist, "jc");
    let frame = session.frame(&tasklist);
    assert_eq!(frame.clear, 3);
    assert_eq!(frame.lines, vec![item(false, "b", true)]);
    assert_eq!(session.get_height(), 1);

    press(&mut session, &mut tasklist, "k ");
    let frame = session.frame(&tasklist);
    assert_eq!(frame.clear, 1);
    assert_eq!(frame.lines, vec![Line::NoTasks]);
    assert_eq!(session.get_height(), 1);
}

#[test]
fn typing_frames_show_the_buffer_on_its_own() {
    let mut tasklist = store();
    let mut session = TasksInteract::new();
    let _ = session.frame(&tasklist);
    press(&mut session, &mut tasklist, "ex");
    let frame = session.frame(&tasklist);
    assert_eq!(frame.clear, 3);
    assert!(frame.lines.is_empty());
    assert_eq!(frame.input, Some("ax".to_string()));
    assert_eq!(session.get_height(), 0);
    let frame = session.frame(&tasklist);
    assert_eq!(frame.clear, 0);
}

#[test]
fn confirm_frames_show_every_task_and_the_question() {
    let mut tasklist = store();
    let mut session = TasksInteract::new();
    press(&mut session, &mut tasklist, " jdanew");
    assert_eq!(session.interact(&mut tasklist, Key::Enter), Step::Continue);
    assert_eq!(session.interact(&mut tasklist, Key::Enter), Step::Continue);
    let frame = session.frame(&tasklist);
    assert_eq!(
        frame.lines,
        vec![
            diff(HashMapTaskType::Existing, task("a", true), task("a", false)),
            diff(HashMapTaskType::Deleted, task("b", true), task("b", true)),
            diff(HashMapTaskType::Existing, task("c", false), task("c", false)),
            diff(HashMapTaskType::Added, task("new", false), task("new", false)),
            Line::AskSave,
        ]
    );
    assert_eq!(frame.input, None);
    assert_eq!(session.get_height(), 5);

    assert_eq!(session.interact(&mut tasklist, Key::Char('n')), Step::Continue);
    assert_eq!(session.interact(&mut tasklist, Key::Escape), Step::Continue);
    let frame = session.frame(&tasklist);
    assert_eq!(frame.clear, 5);
    assert_eq!(frame.lines.len(), 5);
    assert_eq!(frame.lines[4], Line::AskDiscard);
}

#[test]
fn confirm_answers_only_to_y() {
    assert!(TasksInteract::confirm(Key::Char('y')));
    assert!(!TasksInteract::confirm(Key::Char('Y')));
    assert!(!TasksInteract::confirm(Key::Char('n')));
    assert!(!TasksInteract::confirm(Key::Enter));
    assert!(!TasksInteract::confirm(Key::Escape));
    assert!(!TasksInteract::confirm(Key::Backspace));
    assert!(!TasksInteract::confirm(Key::Other));
}

#[test]
fn render_list_marks_the_cursor_row() {
    let tasks = vec![task("x", true), task("y", false)];
    assert_eq!(
        TasksInteract::render_list(&tasks, 1),
        vec![item(false, "x", true), item(true, "y", false)]
    );
    assert_eq!(
        TasksInteract::render_list(&tasks, 5),
        vec![item(false, "x", true), item(false, "y", false)]
    );
    assert_eq!(TasksInteract::render_list(&Vec::new(), 0), vec![Line::NoTasks]);
}

#[test]
fn render_diff_of_an_empty_store_is_empty() {
    assert_eq!(TasksInteract::render_diff(&TaskList::new()), Vec::<Line>::new());
}
