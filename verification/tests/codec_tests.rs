use todo_app::Task;
use todo_app::store::{add_task, complete_task, remove_task, CompleteOutcome, RemoveOutcome};
use todo_app::ser::serialize_tasks;
use todo_app::parse::{parse_tasks, load_tasks, StoreError};

fn task(id: u32, description: &str, completed: bool) -> Task {
    Task { id, description: description.to_string(), completed }
}

fn assert_same(a: &[Task], b: &[Task]) {
    assert_eq!(a.len(), b.len());
    for (x, y) in a.iter().zip(b.iter()) {
        assert_eq!(x.id, y.id);
        assert_eq!(x.description, y.description);
        assert_eq!(x.completed, y.completed);
    }
}

#[test]
fn empty_collection_serializes_to_empty_array() {
    let tasks: Vec<Task> = Vec::new();
    assert_eq!(serialize_tasks(&tasks), "[]");
}

#[test]
fn add_buy_milk_writes_the_expected_file_then_complete_then_remove() {
    let mut tasks: Vec<Task> = Vec::new();
    let id = add_task(&mut tasks, "Buy milk".to_string());
    assert_eq!(id, Some(1));
    assert_eq!(
        serialize_tasks(&tasks),
        "[{\"id\":1,\"description\":\"Buy milk\",\"completed\":false}]"
    );
    assert_eq!(complete_task(&mut tasks, 1), CompleteOutcome::Completed);
    assert_eq!(
        serialize_tasks(&tasks),
        "[{\"id\":1,\"description\":\"Buy milk\",\"completed\":true}]"
    );
    assert_eq!(remove_task(&mut tasks, 1), RemoveOutcome::Removed);
    assert_eq!(serialize_tasks(&tasks), "[]");
}

#[test]
fn save_then_load_round_trips() {
    let tasks = vec![
        task(1, "Buy milk", false),
        task(2, "Pay rent", true),
        task(7, "walk the dog", false),
    ];
    let text = serialize_tasks(&tasks);
    let back = parse_tasks(&text).expect("round trip must load");
    assert_same(&tasks, &back);
}

#[test]
fn round_trip_keeps_special_characters() {
    let tasks = vec![
        task(1, "say \"hi\"", false),
        task(2, "back\\slash", true),
        task(3, "line\nbreak\tand\rmore", false),
        task(4, "control\u{1}\u{1f}chars", false),
        task(5, "unicode: caf\u{e9} \u{1f600}", true),
        task(6, "", false),
    ];
    let text = serialize_tasks(&tasks);
    let back = parse_tasks(&text).expect("round trip must load");
    assert_same(&tasks, &back);
}

#[test]
fn loading_missing_file_gives_empty_collection() {
    let loaded = load_tasks(None).expect("missing file is no error");
    assert!(loaded.is_empty());
}

#[test]
fn loading_present_content_parses_it() {
    let loaded = load_tasks(Some("[{\"id\":4,\"description\":\"x\",\"completed\":true}]"))
        .expect("valid content loads");
    assert_eq!(loaded.len(), 1);
    assert_eq!(loaded[0].id, 4);
    assert!(loaded[0].completed);
}

#[test]
fn non_array_document_is_a_schema_error() {
    let r = parse_tasks("{\"not\":\"an array\"}");
    assert_eq!(r.unwrap_err(), StoreError::NotAnArray);
    assert_eq!(parse_tasks("true").unwrap_err(), StoreError::NotAnArray);
    assert_eq!(parse_tasks("42").unwrap_err(), StoreError::NotAnArray);
    assert_eq!(parse_tasks("\"text\"").unwrap_err(), StoreError::NotAnArray);
}

#[test]
fn invalid_json_is_a_parse_error() {
    assert_eq!(parse_tasks("").unwrap_err(), StoreError::ParseFailure);
    assert_eq!(parse_tasks("   ").unwrap_err(), StoreError::ParseFailure);
    assert_eq!(parse_tasks("{\"not\":").unwrap_err(), StoreError::ParseFailure);
    assert_eq!(parse_tasks("[1,]").unwrap_err(), StoreError::ParseFailure);
    assert_eq!(parse_tasks("[] []").unwrap_err(), StoreError::ParseFailure);
    assert_eq!(parse_tasks("[01]").unwrap_err(), StoreError::ParseFailure);
    assert_eq!(parse_tasks("[\"unterminated]").unwrap_err(), StoreError::ParseFailure);
}

#[test]
fn element_missing_completed_names_that_field() {
    let r = parse_tasks("[{\"id\":1,\"description\":\"x\"}]");
    let e = r.unwrap_err();
    assert_eq!(e, StoreError::BadCompleted);
    assert_eq!(e.message(), "Missing or invalid completed");
}

#[test]
fn element_field_errors_follow_the_check_order() {
    assert_eq!(
        parse_tasks("[{\"description\":\"x\",\"completed\":true}]").unwrap_err(),
        StoreError::BadId
    );
    assert_eq!(
        parse_tasks("[{\"id\":\"one\",\"description\":\"x\",\"completed\":true}]").unwrap_err(),
        StoreError::BadId
    );
    assert_eq!(
        parse_tasks("[{\"id\":1,\"completed\":true}]").unwrap_err(),
        StoreError::BadDescription
    );
    assert_eq!(
        parse_tasks("[{\"id\":1,\"description\":7,\"completed\":true}]").unwrap_err(),
        StoreError::BadDescription
    );
    assert_eq!(
        parse_tasks("[{\"id\":1,\"description\":\"x\",\"completed\":\"yes\"}]").unwrap_err(),
        StoreError::BadCompleted
    );
}

#[test]
fn non_object_element_fails_on_the_id() {
    assert_eq!(parse_tasks("[1,2]").unwrap_err(), StoreError::BadId);
    assert_eq!(parse_tasks("[[]]").unwrap_err(), StoreError::BadId);
}

#[test]
fn number_shapes_that_are_no_id_fail_on_the_id() {
    assert_eq!(
        parse_tasks("[{\"id\":1.5,\"description\":\"x\",\"completed\":false}]").unwrap_err(),
        StoreError::BadId
    );
    assert_eq!(
        parse_tasks("[{\"id\":1e2,\"description\":\"x\",\"completed\":false}]").unwrap_err(),
        StoreError::BadId
    );
    assert_eq!(
        parse_tasks("[{\"id\":-1,\"description\":\"x\",\"completed\":false}]").unwrap_err(),
        StoreError::BadId
    );
    assert_eq!(
        parse_tasks("[{\"id\":4294967296,\"description\":\"x\",\"completed\":false}]").unwrap_err(),
        StoreError::BadId
    );
}

#[test]
fn fields_load_in_any_order_with_whitespace_and_extras() {
    let text = " [ { \"completed\" : true , \"extra\" : { \"a\" : [ 1 , 2 , { \"b\" : null } ] } , \"description\" : \"x\" , \"id\" : 2 } ] ";
    let loaded = parse_tasks(text).expect("permuted fields load");
    assert_eq!(loaded.len(), 1);
    assert_eq!(loaded[0].id, 2);
    assert_eq!(loaded[0].description, "x");
    assert!(loaded[0].completed);
}

#[test]
fn later_duplicate_member_wins() {
    let loaded = parse_tasks("[{\"id\":1,\"id\":2,\"description\":\"x\",\"completed\":false}]")
        .expect("duplicate keys load");
    assert_eq!(loaded[0].id, 2);
}

#[test]
fn string_escapes_load_decoded() {
    let loaded = parse_tasks(
        "[{\"id\":1,\"description\":\"a\\u0041\\n\\t\\\"\\\\\\/\",\"completed\":false}]",
    )
    .expect("escapes load");
    assert_eq!(loaded[0].description, "aA\n\t\"\\/");
}

#[test]
fn serialized_output_is_json_that_serde_reads_back() {
    let tasks = vec![
        task(1, "say \"hi\" to\n\teveryone\\", false),
        task(2, "caf\u{e9} \u{1f600}", true),
        task(3, "control\u{2}char", false),
    ];
    let text = serialize_tasks(&tasks);
    let value: serde_json::Value = serde_json::from_str(&text).expect("output must be valid JSON");
    let arr = value.as_array().expect("output must be an array");
    assert_eq!(arr.len(), tasks.len());
    for (item, t) in arr.iter().zip(tasks.iter()) {
        assert_eq!(item["id"].as_u64(), Some(t.id as u64));
        assert_eq!(item["description"].as_str(), Some(t.description.as_str()));
        assert_eq!(item["completed"].as_bool(), Some(t.completed));
    }
}

#[test]
fn serde_written_content_loads_the_same_tasks() {
    let text = "[{\"id\":10,\"description\":\"from another writer\",\"completed\":false},{\"id\":11,\"description\":\"second\",\"completed\":true}]";
    let value: serde_json::Value = serde_json::from_str(text).unwrap();
    let loaded = parse_tasks(text).expect("content loads");
    let arr = value.as_array().unwrap();
    for (item, t) in arr.iter().zip(loaded.iter()) {
        assert_eq!(item["id"].as_u64(), Some(t.id as u64));
        assert_eq!(item["description"].as_str(), Some(t.description.as_str()));
        assert_eq!(item["completed"].as_bool(), Some(t.completed));
    }
}
