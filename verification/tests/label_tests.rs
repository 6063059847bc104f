use todo_store::todo::{get_status_from_string, get_status_string, TodoStatus};

#[test]
fn status_labels_are_the_presentation_strings() {
    assert_eq!(get_status_string(&TodoStatus::Completed), "Completed");
    assert_eq!(get_status_string(&TodoStatus::Pending), "Pending");
    assert_eq!(get_status_string(&TodoStatus::InProgress), "In progress");
}

#[test]
fn labels_map_back_to_their_statuses() {
    assert!(matches!(get_status_from_string("Completed"), Ok(TodoStatus::Completed)));
    assert!(matches!(get_status_from_string("Pending"), Ok(TodoStatus::Pending)));
    assert!(matches!(get_status_from_string("In progress"), Ok(TodoStatus::InProgress)));
}

#[test]
fn unrecognized_label_is_a_mapping_error() {
    assert!(get_status_from_string("Done").is_err());
    assert!(get_status_from_string("").is_err());
    assert!(get_status_from_string("completed").is_err());
}

#[test]
fn label_round_trip_for_every_status() {
    for status in [TodoStatus::Completed, TodoStatus::Pending, TodoStatus::InProgress] {
        let label = get_status_string(&status);
        let back = get_status_from_string(label.as_str()).unwrap();
        assert_eq!(get_status_string(&back), label);
    }
}
