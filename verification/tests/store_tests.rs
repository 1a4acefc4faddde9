use todo_app::Task;
use todo_app::store::{add_task, complete_task, remove_task, find_task_index, render_task_line,
    CompleteOutcome, RemoveOutcome};
use todo_app::command::{parse_args, confirm_clear, Command, added_message, completed_message,
    already_complete_message, not_found_message, removed_message};
use todo_app::strutil::{parse_u32, u32_to_string};

fn args(list: &[&str]) -> Vec<String> {
    list.iter().map(|s| s.to_string()).collect()
}

#[test]
fn add_assigns_one_on_empty_store() {
    let mut tasks: Vec<Task> = Vec::new();
    let id = add_task(&mut tasks, "Buy milk".to_string());
    assert_eq!(id, Some(1));
    assert_eq!(tasks.len(), 1);
    assert_eq!(tasks[0].id, 1);
    assert_eq!(tasks[0].description, "Buy milk");
    assert!(!tasks[0].completed);
}

#[test]
fn add_ids_strictly_increase_and_count_adds() {
    let mut tasks: Vec<Task> = Vec::new();
    for n in 1..=10u32 {
        let id = add_task(&mut tasks, format!("task {}", n));
        assert_eq!(id, Some(n));
        assert_eq!(tasks.len(), n as usize);
    }
    for (k, t) in tasks.iter().enumerate() {
        assert_eq!(t.id, k as u32 + 1);
    }
}

#[test]
fn add_uses_max_id_plus_one_after_removals() {
    let mut tasks: Vec<Task> = Vec::new();
    add_task(&mut tasks, "a".to_string());
    add_task(&mut tasks, "b".to_string());
    add_task(&mut tasks, "c".to_string());
    assert_eq!(remove_task(&mut tasks, 3), RemoveOutcome::Removed);
    let id = add_task(&mut tasks, "d".to_string());
    assert_eq!(id, Some(3));
}

#[test]
fn add_reports_nothing_when_id_space_is_exhausted() {
    let mut tasks = vec![Task { id: u32::MAX, description: "old".to_string(), completed: false }];
    let id = add_task(&mut tasks, "new".to_string());
    assert_eq!(id, None);
    assert_eq!(tasks.len(), 1);
}

#[test]
fn complete_twice_is_idempotent_and_reports_already_complete() {
    let mut tasks: Vec<Task> = Vec::new();
    add_task(&mut tasks, "a".to_string());
    assert_eq!(complete_task(&mut tasks, 1), CompleteOutcome::Completed);
    assert!(tasks[0].completed);
    assert_eq!(complete_task(&mut tasks, 1), CompleteOutcome::AlreadyComplete);
    assert!(tasks[0].completed);
}

#[test]
fn complete_missing_id_reports_not_found() {
    let mut tasks: Vec<Task> = Vec::new();
    add_task(&mut tasks, "a".to_string());
    assert_eq!(complete_task(&mut tasks, 7), CompleteOutcome::NotFound);
    assert!(!tasks[0].completed);
}

#[test]
fn remove_missing_id_leaves_collection_unchanged() {
    let mut tasks: Vec<Task> = Vec::new();
    add_task(&mut tasks, "a".to_string());
    add_task(&mut tasks, "b".to_string());
    assert_eq!(remove_task(&mut tasks, 9), RemoveOutcome::NotFound);
    assert_eq!(tasks.len(), 2);
    assert_eq!(tasks[0].id, 1);
    assert_eq!(tasks[0].description, "a");
    assert_eq!(tasks[1].id, 2);
    assert_eq!(tasks[1].description, "b");
}

#[test]
fn remove_keeps_other_ids_unchanged() {
    let mut tasks: Vec<Task> = Vec::new();
    add_task(&mut tasks, "a".to_string());
    add_task(&mut tasks, "b".to_string());
    add_task(&mut tasks, "c".to_string());
    assert_eq!(remove_task(&mut tasks, 2), RemoveOutcome::Removed);
    assert_eq!(tasks.len(), 2);
    assert_eq!(tasks[0].id, 1);
    assert_eq!(tasks[1].id, 3);
}

#[test]
fn find_returns_first_match() {
    let tasks = vec![
        Task { id: 5, description: "x".to_string(), completed: false },
        Task { id: 5, description: "y".to_string(), completed: false },
    ];
    assert_eq!(find_task_index(&tasks, 5), Some(0));
    assert_eq!(find_task_index(&tasks, 6), None);
}

#[test]
fn render_lines_mark_completion() {
    let open = Task { id: 1, description: "Buy milk".to_string(), completed: false };
    let done = Task { id: 12, description: "Pay rent".to_string(), completed: true };
    assert_eq!(render_task_line(&open), "1. [ ] Buy milk");
    assert_eq!(render_task_line(&done), "12. [x] Pay rent");
}

#[test]
fn confirm_clear_accepts_only_exact_yes_in_any_case() {
    assert!(confirm_clear("yes"));
    assert!(confirm_clear("YES"));
    assert!(confirm_clear("Yes"));
    assert!(confirm_clear("yEs"));
    assert!(!confirm_clear("y"));
    assert!(!confirm_clear("YES "));
    assert!(!confirm_clear(" yes"));
    assert!(!confirm_clear("no"));
    assert!(!confirm_clear(""));
    assert!(!confirm_clear("yess"));
}

#[test]
fn parse_args_dispatches_each_command() {
    assert!(matches!(parse_args(&args(&["prog"])), Command::Help));
    assert!(matches!(parse_args(&args(&["prog", "list"])), Command::List));
    assert!(matches!(parse_args(&args(&["prog", "clear"])), Command::Clear));
    match parse_args(&args(&["prog", "add", "Buy", "milk"])) {
        Command::Add { description } => assert_eq!(description, "Buy milk"),
        _ => panic!("expected Add"),
    }
    assert!(matches!(parse_args(&args(&["prog", "add"])), Command::AddMissingText));
    match parse_args(&args(&["prog", "complete", "3"])) {
        Command::Complete { id } => assert_eq!(id, 3),
        _ => panic!("expected Complete"),
    }
    assert!(matches!(parse_args(&args(&["prog", "complete"])), Command::CompleteMissingId));
    assert!(matches!(parse_args(&args(&["prog", "complete", "abc"])), Command::CompleteInvalidId));
    match parse_args(&args(&["prog", "remove", "12"])) {
        Command::Remove { id } => assert_eq!(id, 12),
        _ => panic!("expected Remove"),
    }
    assert!(matches!(parse_args(&args(&["prog", "remove"])), Command::RemoveMissingId));
    assert!(matches!(parse_args(&args(&["prog", "remove", "1.5"])), Command::RemoveInvalidId));
    match parse_args(&args(&["prog", "frobnicate"])) {
        Command::Unknown { command } => assert_eq!(command, "frobnicate"),
        _ => panic!("expected Unknown"),
    }
}

#[test]
fn parse_u32_matches_standard_parsing() {
    assert_eq!(parse_u32("0"), Some(0));
    assert_eq!(parse_u32("7"), Some(7));
    assert_eq!(parse_u32("+7"), Some(7));
    assert_eq!(parse_u32("4294967295"), Some(u32::MAX));
    assert_eq!(parse_u32("4294967296"), None);
    assert_eq!(parse_u32(""), None);
    assert_eq!(parse_u32("+"), None);
    assert_eq!(parse_u32("-1"), None);
    assert_eq!(parse_u32("12a"), None);
    assert_eq!(parse_u32(" 1"), None);
}

#[test]
fn u32_rendering_is_plain_decimal() {
    assert_eq!(u32_to_string(0), "0");
    assert_eq!(u32_to_string(42), "42");
    assert_eq!(u32_to_string(u32::MAX), "4294967295");
}

#[test]
fn outcome_messages_match_the_reports() {
    assert_eq!(added_message(3), "Task added with ID: 3");
    assert_eq!(completed_message(2), "Task 2 marked as complete.");
    assert_eq!(already_complete_message(2), "Task 2 is already complete!");
    assert_eq!(not_found_message(9), "Task 9 not found.");
    assert_eq!(removed_message(4), "Task 4 removed.");
}
