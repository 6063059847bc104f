use todo_store::codec::{load_from_content, parse_todos, serialize_todos};
use todo_store::todo::{Todo, TodoStatus};

fn rec(id: &str, task: &str, status: TodoStatus) -> Todo {
    Todo { id: String::from(id), task: String::from(task), status }
}

fn same_records(a: &Vec<Todo>, b: &Vec<Todo>) -> bool {
    a.len() == b.len()
        && a.iter().zip(b.iter()).all(|(x, y)| {
            x.id == y.id
                && x.task == y.task
                && match (&x.status, &y.status) {
                    (TodoStatus::Completed, TodoStatus::Completed) => true,
                    (TodoStatus::Pending, TodoStatus::Pending) => true,
                    (TodoStatus::InProgress, TodoStatus::InProgress) => true,
                    _ => false,
                }
        })
}

#[test]
fn serializes_one_record_exactly() {
    let todos = vec![rec("7", "walk", TodoStatus::Pending)];
    let text = serialize_todos(&todos);
    assert_eq!(text, "[{\"id\":\"7\",\"task\":\"walk\",\"status\":\"Pending\"}]");
}

#[test]
fn serializes_two_records_with_comma_and_labels() {
    let todos = vec![
        rec("1", "a", TodoStatus::Completed),
        rec("2", "b", TodoStatus::InProgress),
    ];
    let text = serialize_todos(&todos);
    assert_eq!(
        text,
        "[{\"id\":\"1\",\"task\":\"a\",\"status\":\"Completed\"},{\"id\":\"2\",\"task\":\"b\",\"status\":\"InProgress\"}]"
    );
}

#[test]
fn serializes_empty_collection_as_empty_array() {
    let todos: Vec<Todo> = Vec::new();
    assert_eq!(serialize_todos(&todos), "[]");
}

#[test]
fn escapes_quotes_and_backslashes() {
    let todos = vec![rec("1", "say \"hi\" \\ wave", TodoStatus::Pending)];
    let text = serialize_todos(&todos);
    assert_eq!(
        text,
        "[{\"id\":\"1\",\"task\":\"say \\\"hi\\\" \\\\ wave\",\"status\":\"Pending\"}]"
    );
}

#[test]
fn round_trip_preserves_elements_and_order() {
    let todos = vec![
        rec("1", "alpha", TodoStatus::Pending),
        rec("2", "be \"ta\"", TodoStatus::Completed),
        rec("3", "ga\\mma", TodoStatus::InProgress),
    ];
    let text = serialize_todos(&todos);
    let back = parse_todos(text.as_str()).unwrap();
    assert!(same_records(&todos, &back));
}

#[test]
fn round_trip_of_empty_collection() {
    let todos: Vec<Todo> = Vec::new();
    let text = serialize_todos(&todos);
    let back = parse_todos(text.as_str()).unwrap();
    assert_eq!(back.len(), 0);
}

#[test]
fn parses_canonical_text() {
    let back = parse_todos("[{\"id\":\"9\",\"task\":\"x\",\"status\":\"Completed\"}]").unwrap();
    assert_eq!(back.len(), 1);
    assert_eq!(back[0].id, "9");
    assert_eq!(back[0].task, "x");
    assert!(matches!(back[0].status, TodoStatus::Completed));
}

#[test]
fn rejects_malformed_text() {
    assert!(parse_todos("").is_err());
    assert!(parse_todos("   ").is_err());
    assert!(parse_todos("[").is_err());
    assert!(parse_todos("{}").is_err());
    assert!(parse_todos("[]x").is_err());
    assert!(parse_todos("[{\"id\":\"1\"}]").is_err());
    assert!(parse_todos("[{\"id\":\"1\",\"task\":\"a\",\"status\":\"Done\"}]").is_err());
    assert!(parse_todos("[{\"id\":\"1\",\"task\":\"a\",\"status\":\"Pending\"},]").is_err());
    assert!(parse_todos("[{\"id\":\"1\",\"task\":\"\\ud800\",\"status\":\"Pending\"}]").is_err());
    assert!(parse_todos("[{\"id\":\"1\",\"task\":\"\\q\",\"status\":\"Pending\"}]").is_err());
}

#[test]
fn accepts_insignificant_whitespace_between_tokens() {
    let text = " [ { \"id\" : \"1\" ,\n\t\"task\" : \"a b\" , \"status\" : \"Pending\" } ,\r\n {\"id\":\"2\",\"task\":\"c\",\"status\":\"Completed\"} ] ";
    let back = parse_todos(text).unwrap();
    assert_eq!(back.len(), 2);
    assert_eq!(back[0].id, "1");
    assert_eq!(back[0].task, "a b");
    assert!(matches!(back[0].status, TodoStatus::Pending));
    assert_eq!(back[1].id, "2");
    assert!(matches!(back[1].status, TodoStatus::Completed));
    assert!(parse_todos("[ ]").unwrap().is_empty());
    assert!(parse_todos(" [] ").unwrap().is_empty());
}

#[test]
fn accepts_the_json_string_escapes() {
    let back = parse_todos(
        "[{\"id\":\"1\",\"task\":\"\\u0041\\t\\n\\b\\f\\r\\/\\\\ \\\"\",\"status\":\"Pending\"}]",
    )
    .unwrap();
    assert_eq!(back[0].task, "A\t\n\u{0008}\u{000C}\r/\\ \"");
    let astral = parse_todos(
        "[{\"id\":\"1\",\"task\":\"\\ud83d\\ude00\",\"status\":\"Pending\"}]",
    )
    .unwrap();
    assert_eq!(astral[0].task, "\u{1F600}");
}

#[test]
fn escapes_control_characters_on_write() {
    let todos = vec![rec("1", "a\nb\tc\u{0001}d", TodoStatus::Pending)];
    let text = serialize_todos(&todos);
    assert_eq!(
        text,
        "[{\"id\":\"1\",\"task\":\"a\\nb\\tc\\u0001d\",\"status\":\"Pending\"}]"
    );
}

#[test]
fn round_trip_preserves_control_characters() {
    let todos = vec![rec("1", "line one\nline two\r\t\u{0002}", TodoStatus::InProgress)];
    let text = serialize_todos(&todos);
    let back = parse_todos(text.as_str()).unwrap();
    assert!(same_records(&todos, &back));
}

#[test]
fn absent_file_content_loads_as_empty_collection() {
    let loaded = load_from_content(None).unwrap();
    assert_eq!(loaded.len(), 0);
}

#[test]
fn present_content_loads_through_the_parser() {
    let loaded =
        load_from_content(Some("[{\"id\":\"1\",\"task\":\"a\",\"status\":\"Pending\"}]")).unwrap();
    assert_eq!(loaded.len(), 1);
    assert_eq!(loaded[0].task, "a");
    assert!(load_from_content(Some("not json")).is_err());
}
