use todo_store::store::{StoreError, TodoBox, TodoMessage, ValidationError};
use todo_store::todo::{Todo, TodoCreate, TodoStatus, TodoUpdate};

fn empty_store() -> TodoBox {
    TodoBox::new_empty()
}

#[test]
fn create_distinct_tasks_builds_ordered_pending_records() {
    let mut store = empty_store();
    let a = store.create(String::from("alpha")).unwrap();
    let b = store.create(String::from("beta")).unwrap();
    let c = store.create(String::from("gamma")).unwrap();
    assert_eq!(store.todos.len(), 3);
    assert_eq!(store.todos[0].task, "alpha");
    assert_eq!(store.todos[1].task, "beta");
    assert_eq!(store.todos[2].task, "gamma");
    assert!(matches!(store.todos[0].status, TodoStatus::Pending));
    assert!(matches!(store.todos[1].status, TodoStatus::Pending));
    assert!(matches!(store.todos[2].status, TodoStatus::Pending));
    assert_ne!(a.id, b.id);
    assert_ne!(a.id, c.id);
    assert_ne!(b.id, c.id);
    assert_eq!(store.todos[0].id, a.id);
    assert_eq!(store.todos[1].id, b.id);
    assert_eq!(store.todos[2].id, c.id);
}

#[test]
fn create_empty_task_fails_and_changes_nothing() {
    let mut store = empty_store();
    store.create(String::from("alpha")).unwrap();
    let r = store.create(String::new());
    assert!(matches!(r, Err(ValidationError::EmptyTask)));
    assert_eq!(store.todos.len(), 1);
    assert_eq!(store.todos[0].task, "alpha");
}

#[test]
fn create_duplicate_task_fails_and_keeps_size_one() {
    let mut store = empty_store();
    store.create(String::from("X")).unwrap();
    let r = store.create(String::from("X"));
    assert!(matches!(r, Err(ValidationError::DuplicateTask)));
    assert_eq!(store.todos.len(), 1);
}

#[test]
fn completion_ratio_one_of_four_is_twenty_five_percent() {
    let mut store = empty_store();
    store.create(String::from("a")).unwrap();
    let done = store.create(String::from("b")).unwrap();
    store.create(String::from("c")).unwrap();
    store.create(String::from("d")).unwrap();
    store.update_status(&done.id, TodoStatus::Completed).unwrap();
    let completed = store.completed_count();
    let total = store.total_count();
    assert_eq!(completed, 1);
    assert_eq!(total, 4);
    let ratio = (completed as f32 / total as f32) * 100.0;
    assert_eq!(ratio, 25.0);
}

#[test]
fn completion_ratio_of_empty_collection_is_zero() {
    let store = empty_store();
    let completed = store.completed_count();
    let total = store.total_count();
    assert_eq!(completed, 0);
    assert_eq!(total, 0);
    let ratio = if total == 0 || completed == 0 {
        0.0
    } else {
        (completed as f32 / total as f32) * 100.0
    };
    assert_eq!(ratio, 0.0);
}

#[test]
fn delete_removes_exactly_the_named_record() {
    let mut store = empty_store();
    let a = store.create(String::from("alpha")).unwrap();
    let b = store.create(String::from("beta")).unwrap();
    let c = store.create(String::from("gamma")).unwrap();
    store.delete(&b.id).unwrap();
    assert_eq!(store.todos.len(), 2);
    assert_eq!(store.todos[0].id, a.id);
    assert_eq!(store.todos[0].task, "alpha");
    assert_eq!(store.todos[1].id, c.id);
    assert_eq!(store.todos[1].task, "gamma");
}

#[test]
fn delete_unknown_id_fails_and_changes_nothing() {
    let mut store = empty_store();
    store.create(String::from("alpha")).unwrap();
    let r = store.delete(&String::from("no-such-id"));
    assert!(r.is_err());
    assert_eq!(store.todos.len(), 1);
}

#[test]
fn update_status_unknown_id_fails_and_changes_nothing() {
    let mut store = empty_store();
    let a = store.create(String::from("alpha")).unwrap();
    let r = store.update_status(&String::from("no-such-id"), TodoStatus::Completed);
    assert!(r.is_err());
    assert_eq!(store.todos.len(), 1);
    assert_eq!(store.todos[0].id, a.id);
    assert!(matches!(store.todos[0].status, TodoStatus::Pending));
}

#[test]
fn update_status_any_state_reaches_any_other() {
    let mut store = empty_store();
    let a = store.create(String::from("alpha")).unwrap();
    store.update_status(&a.id, TodoStatus::Completed).unwrap();
    assert!(matches!(store.todos[0].status, TodoStatus::Completed));
    store.update_status(&a.id, TodoStatus::Pending).unwrap();
    assert!(matches!(store.todos[0].status, TodoStatus::Pending));
    store.update_status(&a.id, TodoStatus::InProgress).unwrap();
    assert!(matches!(store.todos[0].status, TodoStatus::InProgress));
}

#[test]
fn initialize_rejects_duplicate_identifiers() {
    let twin = |task: &str| Todo {
        id: String::from("same"),
        task: String::from(task),
        status: TodoStatus::Pending,
    };
    let r = TodoBox::initialize(vec![twin("a"), twin("b")]);
    assert!(r.is_none());
}

#[test]
fn initialize_keeps_loaded_records_in_order() {
    let rec = |id: &str, task: &str| Todo {
        id: String::from(id),
        task: String::from(task),
        status: TodoStatus::InProgress,
    };
    let store = TodoBox::initialize(vec![rec("1", "a"), rec("2", "b")]).unwrap();
    assert_eq!(store.todos.len(), 2);
    assert_eq!(store.todos[0].id, "1");
    assert_eq!(store.todos[1].task, "b");
    assert_eq!(store.todo_input_create, "");
    assert_eq!(store.error_creation, "");
}

#[test]
fn message_create_uses_pending_input_and_clears_it() {
    let mut store = empty_store();
    store
        .update(TodoMessage::CreateTodoInputMessage(String::from("walk dog")))
        .unwrap();
    assert_eq!(store.todo_input_create, "walk dog");
    let persist = store.update(TodoMessage::TodoCreateMessage).unwrap();
    assert!(persist);
    assert_eq!(store.todos.len(), 1);
    assert_eq!(store.todos[0].task, "walk dog");
    assert_eq!(store.todo_input_create, "");
    assert_eq!(store.error_creation, "");
}

#[test]
fn message_create_with_empty_input_sets_error_text() {
    let mut store = empty_store();
    let persist = store.update(TodoMessage::TodoCreateMessage).unwrap();
    assert!(!persist);
    assert_eq!(store.todos.len(), 0);
    assert_eq!(store.error_creation, "Todo task is require");
}

#[test]
fn message_create_with_duplicate_input_sets_error_text() {
    let mut store = empty_store();
    store.create(String::from("walk dog")).unwrap();
    store
        .update(TodoMessage::CreateTodoInputMessage(String::from("walk dog")))
        .unwrap();
    let persist = store.update(TodoMessage::TodoCreateMessage).unwrap();
    assert!(!persist);
    assert_eq!(store.todos.len(), 1);
    assert_eq!(store.error_creation, "Task already exist");
}

#[test]
fn message_update_by_label_sets_status() {
    let mut store = empty_store();
    let a = store.create(String::from("alpha")).unwrap();
    let persist = store
        .update(TodoMessage::TodoUpdateMessage(String::from("Completed"), a.id.clone()))
        .unwrap();
    assert!(persist);
    assert!(matches!(store.todos[0].status, TodoStatus::Completed));
}

#[test]
fn message_update_with_bad_label_is_an_error() {
    let mut store = empty_store();
    let a = store.create(String::from("alpha")).unwrap();
    let r = store.update(TodoMessage::TodoUpdateMessage(String::from("Done"), a.id.clone()));
    assert!(matches!(r, Err(StoreError::BadLabel(_))));
    assert!(matches!(store.todos[0].status, TodoStatus::Pending));
}

#[test]
fn message_update_unknown_id_is_an_error_and_no_write_is_owed() {
    let mut store = empty_store();
    let a = store.create(String::from("alpha")).unwrap();
    let r = store.update(TodoMessage::TodoUpdateMessage(
        String::from("Completed"),
        String::from("no-such-id"),
    ));
    assert!(matches!(r, Err(StoreError::NotFound(_))));
    assert_eq!(store.todos.len(), 1);
    assert_eq!(store.todos[0].id, a.id);
    assert!(matches!(store.todos[0].status, TodoStatus::Pending));
}

#[test]
fn message_delete_removes_record() {
    let mut store = empty_store();
    let a = store.create(String::from("alpha")).unwrap();
    let b = store.create(String::from("beta")).unwrap();
    let persist = store.update(TodoMessage::TodoDeleteMessage(a.id.clone())).unwrap();
    assert!(persist);
    assert_eq!(store.todos.len(), 1);
    assert_eq!(store.todos[0].id, b.id);
}

#[test]
fn record_constructor_and_update() {
    let rec = Todo::new(TodoCreate { task: String::from("read") });
    assert_eq!(rec.task, "read");
    assert!(matches!(rec.status, TodoStatus::Pending));
    let mut rec2 = rec;
    rec2.update(TodoUpdate { status: TodoStatus::InProgress });
    assert_eq!(rec2.task, "read");
    assert!(matches!(rec2.status, TodoStatus::InProgress));
}

#[test]
fn fresh_identifiers_differ_between_records() {
    let a = Todo::new(TodoCreate { task: String::from("one") });
    let b = Todo::new(TodoCreate { task: String::from("two") });
    assert_ne!(a.id, b.id);
    assert!(!a.id.is_empty());
}
