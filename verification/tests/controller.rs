use taskmd::controller::{
    confirm_one_or_many, decide, needed_prompt, Prompt, TaskIO, TasksConfirmed,
};
use taskmd::hash_map_task::Task;
use taskmd::interact::{Key, Step, TasksInteract};
use taskmd::markdown::File;
use taskmd::store::{GetTasksFilterOption, TaskError, TaskUpdateAction};
use taskmd::tasklist::{TaskList, TaskListPersist};

fn task(description: &str, is_completed: bool) -> Task {
    Task { is_completed, description: description.to_string() }
}

fn controller(text: &str) -> TaskIO<File<'static>> {
    let mut file = File::from("tasks.md");
    file.set_contents(text);
    TaskIO::new(file).unwrap()
}

struct Broken {
    saves: usize,
}

impl TaskListPersist for Broken {
    fn load_tasklist(&mut self) -> Result<TaskList, TaskError> {
        TaskList::from(vec![task("a", false), task("b", false)])
    }

    fn save_tasklist(&mut self, _tasklist: &TaskList) -> Result<(), TaskError> {
        self.saves += 1;
        Err(TaskError::IoFailure)
    }
}

struct Unreadable;

impl TaskListPersist for Unreadable {
    fn load_tasklist(&mut self) -> Result<TaskList, TaskError> {
        Err(TaskError::IoFailure)
    }

    fn save_tasklist(&mut self, _tasklist: &TaskList) -> Result<(), TaskError> {
        Ok(())
    }
}

#[test]
fn prompts_follow_the_number_found() {
    assert_eq!(needed_prompt(0, true), Prompt::Nothing);
    assert_eq!(needed_prompt(0, false), Prompt::Nothing);
    assert_eq!(needed_prompt(1, true), Prompt::ConfirmOne);
    assert_eq!(needed_prompt(1, false), Prompt::ConfirmOne);
    assert_eq!(needed_prompt(2, true), Prompt::ConfirmAllOrSelect);
    assert_eq!(needed_prompt(2, false), Prompt::Select);
}

#[test]
fn decide_follows_the_answer() {
    assert_eq!(decide(0, true, true, Some(1)), TasksConfirmed::NoTask);
    assert_eq!(decide(1, true, true, None), TasksConfirmed::One(0));
    assert_eq!(decide(1, true, false, Some(1)), TasksConfirmed::NoTask);
    assert_eq!(decide(3, true, true, None), TasksConfirmed::All);
    assert_eq!(decide(3, false, true, None), TasksConfirmed::NoTask);
    assert_eq!(decide(3, false, false, Some(1)), TasksConfirmed::One(0));
    assert_eq!(decide(3, true, false, Some(3)), TasksConfirmed::One(2));
    assert_eq!(decide(3, true, false, Some(4)), TasksConfirmed::NoTask);
    assert_eq!(decide(3, true, false, Some(0)), TasksConfirmed::NoTask);
    assert_eq!(decide(3, true, false, None), TasksConfirmed::NoTask);
}

#[test]
fn confirm_reads_the_answer_as_typed() {
    assert_eq!(confirm_one_or_many(1, false, "y"), TasksConfirmed::One(0));
    assert_eq!(confirm_one_or_many(1, false, " y\n"), TasksConfirmed::One(0));
    assert_eq!(confirm_one_or_many(1, false, "n"), TasksConfirmed::NoTask);
    assert_eq!(confirm_one_or_many(1, false, "1"), TasksConfirmed::NoTask);
    assert_eq!(confirm_one_or_many(4, true, "y"), TasksConfirmed::All);
    assert_eq!(confirm_one_or_many(4, false, "y"), TasksConfirmed::NoTask);
    assert_eq!(confirm_one_or_many(4, true, "2"), TasksConfirmed::One(1));
    assert_eq!(confirm_one_or_many(4, false, " 4 "), TasksConfirmed::One(3));
    assert_eq!(confirm_one_or_many(4, true, "5"), TasksConfirmed::NoTask);
    assert_eq!(confirm_one_or_many(4, true, "0"), TasksConfirmed::NoTask);
    assert_eq!(confirm_one_or_many(4, true, "-1"), TasksConfirmed::NoTask);
    assert_eq!(confirm_one_or_many(4, true, "two"), TasksConfirmed::NoTask);
    assert_eq!(confirm_one_or_many(4, true, ""), TasksConfirmed::NoTask);
    assert_eq!(confirm_one_or_many(0, true, "y"), TasksConfirmed::NoTask);
}

#[test]
fn new_loads_from_the_storage() {
    let io = controller("intro\n- [ ] a\n- [x] b");
    assert_eq!(
        io.get_tasklist().get_tasks(GetTasksFilterOption::All),
        vec![task("a", false), task("b", true)]
    );
    assert_eq!(io.get_storage().contents(), "intro\n- [ ] a\n- [x] b");
}

#[test]
fn new_fails_as_the_storage_does() {
    assert_eq!(TaskIO::new(Unreadable).err(), Some(TaskError::IoFailure));
    let mut file = File::from("tasks.md");
    file.set_contents("- [ ] a\n- [ ] a");
    assert_eq!(TaskIO::new(file).err(), Some(TaskError::AmbiguousDocument));
}

#[test]
fn add_saves_the_new_task() {
    let mut io = controller("- [ ] a");
    io.add("b").unwrap();
    assert_eq!(io.get_storage().contents(), "- [ ] a\n- [ ] b");
    assert_eq!(io.add("a"), Err(TaskError::DuplicateTask));
    assert_eq!(io.get_storage().contents(), "- [ ] a\n- [ ] b");
    assert_eq!(io.get_tasklist().len(), 2);
}

#[test]
fn add_keeps_the_task_when_saving_fails() {
    let mut io = TaskIO::new(Broken { saves: 0 }).unwrap();
    assert_eq!(io.add("c"), Err(TaskError::IoFailure));
    assert!(io.get_tasklist().has_task("c"));
    assert_eq!(io.get_storage().saves, 1);
    assert_eq!(io.add("c"), Err(TaskError::DuplicateTask));
    assert_eq!(io.get_storage().saves, 1);
    assert_eq!(io.save(), Err(TaskError::IoFailure));
    assert_eq!(io.get_storage().saves, 2);
}

#[test]
fn delete_one_or_all_of_the_tasks_found() {
    let text = "- [ ] red apple\n- [x] green apple\n- [ ] pear";
    let mut io = controller(text);
    assert_eq!(io.delete("APPLE", "2"), Ok(1));
    assert_eq!(io.get_storage().contents(), "- [ ] red apple\n- [ ] pear");

    let mut io = controller(text);
    assert_eq!(io.delete("apple", "y"), Ok(2));
    assert_eq!(io.get_storage().contents(), "- [ ] pear");

    let mut io = controller(text);
    assert_eq!(io.delete("pear", "y"), Ok(1));
    assert_eq!(io.get_storage().contents(), "- [ ] red apple\n- [x] green apple");

    let mut io = controller(text);
    assert_eq!(io.delete("apple", "n"), Ok(0));
    assert_eq!(io.delete("plum", "y"), Ok(0));
    assert_eq!(io.delete("apple", "3"), Ok(0));
    assert_eq!(io.get_storage().contents(), text);
}

#[test]
fn toggle_chooses_among_open_tasks_unless_all() {
    let text = "- [ ] a\n- [x] b\n- [ ] c";
    let mut io = controller(text);
    assert_eq!(io.toggle(false, "2"), Ok(1));
    assert_eq!(io.get_storage().contents(), "- [ ] a\n- [x] b\n- [x] c");

    let mut io = controller(text);
    assert_eq!(io.toggle(true, "2"), Ok(1));
    assert_eq!(io.get_storage().contents(), "- [ ] a\n- [ ] b\n- [ ] c");

    let mut io = controller(text);
    assert_eq!(io.toggle(true, "y"), Ok(3));
    assert_eq!(io.get_storage().contents(), "- [x] a\n- [ ] b\n- [x] c");

    let mut io = controller(text);
    assert_eq!(io.toggle(false, "y"), Ok(2));
    assert_eq!(io.get_storage().contents(), "- [x] a\n- [x] b\n- [x] c");
}

#[test]
fn edit_renames_one_task_and_refuses_a_collision() {
    let text = "- [ ] red apple\n- [x] green apple\n- [ ] pear";
    let mut io = controller(text);
    assert_eq!(io.edit("apple", "1", "plum"), Ok(1));
    assert_eq!(io.get_storage().contents(), "- [ ] plum\n- [x] green apple\n- [ ] pear");

    let mut io = controller(text);
    assert_eq!(io.edit("apple", "y", "plum"), Ok(0));
    assert_eq!(io.edit("pear", "y", "red apple"), Ok(0));
    assert_eq!(io.get_storage().contents(), text);
    assert_eq!(io.edit("pear", "y", "pear"), Ok(1));
    assert_eq!(io.edit("pear", "y", "quince"), Ok(1));
    assert_eq!(io.get_storage().contents(), "- [ ] red apple\n- [x] green apple\n- [ ] quince");
}

#[test]
fn make_update_skips_what_cannot_be_changed() {
    let mut io = controller("- [ ] a\n- [ ] b");
    let tasks = vec![task("a", false), task("ghost", false), task("b", false)];
    assert_eq!(io.make_update(&tasks, &TaskUpdateAction::Toggle, TasksConfirmed::All), Ok(2));
    assert_eq!(io.get_storage().contents(), "- [x] a\n- [x] b");
    assert_eq!(io.make_update(&tasks, &TaskUpdateAction::Delete, TasksConfirmed::One(1)), Ok(0));
    assert_eq!(io.make_update(&tasks, &TaskUpdateAction::Delete, TasksConfirmed::One(7)), Ok(0));
    assert_eq!(io.make_update(&tasks, &TaskUpdateAction::Delete, TasksConfirmed::NoTask), Ok(0));
    assert_eq!(io.get_storage().contents(), "- [x] a\n- [x] b");
    let rename = TaskUpdateAction::Edit("same".to_string());
    assert_eq!(io.make_update(&tasks, &rename, TasksConfirmed::All), Ok(1));
    assert_eq!(io.get_storage().contents(), "- [x] same\n- [x] b");
}

#[test]
fn make_update_reports_a_failed_save() {
    let mut io = TaskIO::new(Broken { saves: 0 }).unwrap();
    let tasks = vec![task("a", false)];
    assert_eq!(
        io.make_update(&tasks, &TaskUpdateAction::Toggle, TasksConfirmed::All),
        Err(TaskError::IoFailure)
    );
    assert!(io.get_tasklist().get("a").unwrap().is_completed());
}

#[test]
fn list_saves_only_on_a_confirmed_save() {
    let mut io = controller("- [ ] a\n- [ ] b");
    let mut session = TasksInteract::new();
    assert_eq!(io.list(&mut session, Key::Char(' ')), Ok(Step::Continue));
    assert_eq!(io.get_storage().contents(), "- [ ] a\n- [ ] b");
    assert_eq!(io.list(&mut session, Key::Enter), Ok(Step::Continue));
    assert_eq!(io.get_storage().contents(), "- [ ] a\n- [ ] b");
    assert_eq!(io.list(&mut session, Key::Char('y')), Ok(Step::Save));
    assert_eq!(io.get_storage().contents(), "- [x] a\n- [ ] b");
}

#[test]
fn list_discards_without_saving() {
    let mut io = controller("- [ ] a");
    let mut session = TasksInteract::new();
    assert_eq!(io.list(&mut session, Key::Char('d')), Ok(Step::Continue));
    assert_eq!(io.list(&mut session, Key::Escape), Ok(Step::Continue));
    assert_eq!(io.list(&mut session, Key::Char('y')), Ok(Step::Discard));
    assert_eq!(io.get_storage().contents(), "- [ ] a");
}

#[test]
fn list_reports_a_failed_save() {
    let mut io = TaskIO::new(Broken { saves: 0 }).unwrap();
    let mut session = TasksInteract::new();
    assert_eq!(io.list(&mut session, Key::Char(' ')), Ok(Step::Continue));
    assert_eq!(io.list(&mut session, Key::Enter), Ok(Step::Continue));
    assert_eq!(io.list(&mut session, Key::Char('y')), Err(TaskError::IoFailure));
    assert_eq!(io.get_storage().saves, 1);
}

#[test]
fn save_hands_the_store_to_the_storage_and_returns_its_answer() {
    let mut io = controller("note\n- [x] a");
    assert_eq!(io.save(), Ok(()));
    assert_eq!(io.get_storage().contents(), "note\n- [x] a");
    assert_eq!(io.get_tasklist().get_tasks(GetTasksFilterOption::All), vec![task("a", true)]);

    let list = TaskList::from(vec![task("b", false)]).unwrap();
    let mut file = File::from("tasks.md");
    file.set_contents("- [ ] b\n- [ ] gone");
    let mut io = TaskIO::with_tasklist(file, list);
    assert_eq!(io.save(), Ok(()));
    assert_eq!(io.get_storage().contents(), "- [ ] b");
}
