use taskmd::hash_map_task::{HashMapTask, HashMapTaskType, Task};

fn task(description: &str, is_completed: bool) -> Task {
    Task { is_completed, description: description.to_string() }
}

#[test]
fn test_task_equality_for_toggle() {
    let mut hmt = HashMapTask::from(task("first desc", false), 0);

    assert_eq!(hmt.get_task(), hmt.get_original_task());

    hmt.toggle();
    assert_ne!(hmt.get_task(), hmt.get_original_task());

    hmt.toggle();
    assert_eq!(hmt.get_task(), hmt.get_original_task());
}

#[test]
fn test_task_equality_for_description() {
    let mut hmt = HashMapTask::from(task("first desc", false), 0);

    assert_eq!(hmt.get_task(), hmt.get_original_task());

    let _ = hmt.set_description("new desc");
    assert_ne!(hmt.get_task(), hmt.get_original_task());

    let _ = hmt.set_description("first desc");
    assert_eq!(hmt.get_task(), hmt.get_original_task());
}

#[test]
fn loaded_task_keeps_what_it_was_given() {
    let hmt = HashMapTask::from(task("water plants", true), 7);
    assert_eq!(hmt.get_task(), task("water plants", true));
    assert_eq!(hmt.get_original_task(), task("water plants", true));
    assert_eq!(hmt.get_key(), "water plants");
    assert_eq!(hmt.get_original_key(), "water plants");
    assert_eq!(hmt.get_order(), 7);
    assert_eq!(hmt.get_type(), HashMapTaskType::Existing);
    assert_eq!(hmt.task_type, HashMapTaskType::Existing);
    assert!(hmt.is_active());
    assert!(hmt.is_completed());
    assert!(!hmt.is_changed());
}

#[test]
fn new_task_is_added_and_open() {
    let hmt = HashMapTask::new("call mum".to_string(), 3);
    assert_eq!(hmt.get_task(), task("call mum", false));
    assert_eq!(hmt.get_original_task(), task("call mum", false));
    assert_eq!(hmt.get_order(), 3);
    assert_eq!(hmt.get_type(), HashMapTaskType::Added);
    assert!(hmt.is_active());
    assert!(hmt.is_changed());
}

#[test]
fn set_description_returns_the_new_key_and_keeps_the_old() {
    let mut hmt = HashMapTask::from(task("old", false), 0);
    let key = hmt.set_description("new");
    assert_eq!(key, "new");
    assert_eq!(hmt.get_key(), "new");
    assert_eq!(hmt.get_original_key(), "old");
    assert!(hmt.has_description("new"));
    assert!(!hmt.has_description("old"));
    assert!(hmt.has_original_description("old"));
    assert!(!hmt.has_original_description("new"));
    assert!(hmt.is_changed());
    assert_eq!(hmt.get_order(), 0);
    assert_eq!(hmt.get_type(), HashMapTaskType::Existing);
}

#[test]
fn delete_marks_the_task_and_keeps_what_it_says() {
    let mut hmt = HashMapTask::from(task("gone", true), 2);
    hmt.delete();
    assert_eq!(hmt.get_type(), HashMapTaskType::Deleted);
    assert!(!hmt.is_active());
    assert!(hmt.is_changed());
    assert_eq!(hmt.get_task(), task("gone", true));
    assert_eq!(hmt.get_order(), 2);
}

#[test]
fn tasks_compare_by_order_alone() {
    let a = HashMapTask::from(task("a", false), 1);
    let b = HashMapTask::new("b".to_string(), 1);
    let c = HashMapTask::from(task("a", false), 2);
    assert!(a == b);
    assert!(a != c);
    assert!(a < c);
    assert!(c > b);
    assert!(a <= b);
}

#[test]
fn task_clone_is_equal() {
    let t = task("copy me", true);
    assert_eq!(t.clone(), t);
}

#[test]
fn a_task_equals_its_kind() {
    let mut hmt = HashMapTask::from(task("a", false), 0);
    assert!(hmt == HashMapTaskType::Existing);
    assert!(hmt != HashMapTaskType::Added);
    hmt.delete();
    assert!(hmt == HashMapTaskType::Deleted);
    assert!(HashMapTask::new("b".to_string(), 1) == HashMapTaskType::Added);
}
