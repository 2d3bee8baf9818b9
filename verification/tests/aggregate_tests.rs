use tasuki::date::Date;
use tasuki::error::TasukiError;
use tasuki::localfile::{LocalFileBackend, LocalFileConfig};
use tasuki::manager::{BackendInstance, BackendManager, sort_tasks};
use tasuki::model::{BackendSource, Priority, Task, TaskStatus, TaskUpdate};
use tasuki::obsidian::{ObsidianBackend, ObsidianConfig};
use tasuki::config::{GeneralConfig, WaybarConfig};

fn ymd(y: u32, m: u8, d: u8) -> Date {
    Date::new(y, m, d).unwrap()
}

fn make_task(title: &str, due: Option<Date>, priority: Priority) -> Task {
    Task {
        id: format!("local:{}", title),
        title: title.to_string(),
        status: TaskStatus::Pending,
        priority,
        due,
        tags: vec![],
        source: BackendSource::LocalFile,
        source_line: None,
        source_path: None,
        created_at: None,
        completed_at: None,
    }
}

fn manager() -> BackendManager {
    BackendManager::new(vec![
        BackendInstance::LocalFile(LocalFileBackend::new(LocalFileConfig {
            path: "/tmp/todo.txt".to_string(),
        })),
        BackendInstance::Obsidian(ObsidianBackend::new(ObsidianConfig {
            vault_path: "/vault".to_string(),
            folders: None,
            ignore_folders: vec![],
            inbox_file: "Inbox.md".to_string(),
        })),
    ])
}

#[test]
fn test_merge_keeps_tasks_when_one_backend_fails() {
    let m = manager();
    let results = vec![
        ("local".to_string(), Ok(vec![make_task("a", None, Priority::Unset), make_task("b", None, Priority::Unset)])),
        ("Obsidian".to_string(), Err(TasukiError::Io("disk on fire".to_string()))),
    ];
    let tasks = m.merge_results(results).unwrap();
    assert_eq!(tasks.len(), 2);
    assert_eq!(tasks[0].title, "a");
    assert_eq!(tasks[1].title, "b");
}

#[test]
fn test_merge_surfaces_first_error_when_all_fail() {
    let m = manager();
    let results: Vec<(String, Result<Vec<Task>, TasukiError>)> = vec![
        ("local".to_string(), Err(TasukiError::Io("first".to_string()))),
        ("Obsidian".to_string(), Err(TasukiError::Io("second".to_string()))),
    ];
    let err = m.merge_results(results).unwrap_err();
    match err {
        TasukiError::Backend { backend, message } => {
            assert_eq!(backend, "local");
            assert_eq!(message, "IO error: first");
        }
        _ => panic!("expected a backend error"),
    }
}

#[test]
fn test_merge_masks_error_when_a_backend_succeeds_empty() {
    let m = manager();
    let results: Vec<(String, Result<Vec<Task>, TasukiError>)> = vec![
        ("local".to_string(), Ok(vec![])),
        ("Obsidian".to_string(), Err(TasukiError::Io("boom".to_string()))),
    ];
    // Partial failure is masked whenever any backend succeeded, even with
    // zero tasks; only when every backend fails does the call fail.
    let tasks = m.merge_results(results).unwrap();
    assert!(tasks.is_empty());
}

#[test]
fn test_merge_no_backends_is_empty_ok() {
    let m = manager();
    let tasks = m.merge_results(vec![]).unwrap();
    assert!(tasks.is_empty());
}

#[test]
fn test_sort_overdue_before_no_due() {
    let today = ymd(2025, 3, 10);
    let sorted = sort_tasks(
        vec![
            make_task("unplanned", None, Priority::High),
            make_task("late", Some(ymd(2025, 3, 9)), Priority::Unset),
        ],
        today,
    );
    assert_eq!(sorted[0].title, "late");
    assert_eq!(sorted[1].title, "unplanned");
}

#[test]
fn test_sort_buckets_and_dates() {
    let today = ymd(2025, 3, 10);
    let sorted = sort_tasks(
        vec![
            make_task("future", Some(ymd(2025, 4, 1)), Priority::High),
            make_task("today", Some(ymd(2025, 3, 10)), Priority::Unset),
            make_task("overdue", Some(ymd(2025, 2, 1)), Priority::Unset),
            make_task("nearer future", Some(ymd(2025, 3, 12)), Priority::Unset),
        ],
        today,
    );
    let titles: Vec<&str> = sorted.iter().map(|t| t.title.as_str()).collect();
    assert_eq!(titles, vec!["overdue", "today", "nearer future", "future"]);
}

#[test]
fn test_sort_priority_then_title() {
    let today = ymd(2025, 3, 10);
    let d = Some(ymd(2025, 3, 20));
    let sorted = sort_tasks(
        vec![
            make_task("beta", d, Priority::Unset),
            make_task("alpha", d, Priority::Unset),
            make_task("gamma", d, Priority::High),
        ],
        today,
    );
    let titles: Vec<&str> = sorted.iter().map(|t| t.title.as_str()).collect();
    assert_eq!(titles, vec!["gamma", "alpha", "beta"]);
}

#[test]
fn test_route_for_id_by_prefix() {
    let m = manager();
    assert_eq!(m.route_for_id("local:3").unwrap(), 0);
    assert_eq!(m.route_for_id("obsidian:Inbox.md:2").unwrap(), 1);
    let err = m.route_for_id("unknown:7").unwrap_err();
    assert_eq!(err.render(), "Parse error: No backend found for task ID: unknown:7");
}

#[test]
fn test_create_routing() {
    let m = manager();
    assert_eq!(m.create_index(BackendSource::Obsidian).unwrap(), 1);
    assert_eq!(m.create_index(BackendSource::LocalFile).unwrap(), 0);
    let empty = BackendManager::new(vec![]);
    let err = empty.create_index(BackendSource::LocalFile).unwrap_err();
    assert_eq!(err.render(), "Backend 'none' error: No backends configured");
}

#[test]
fn test_all_tasks_from_results_sorts() {
    let m = manager();
    let today = ymd(2025, 3, 10);
    let results = vec![
        ("local".to_string(), Ok(vec![make_task("unplanned", None, Priority::Unset)])),
        ("Obsidian".to_string(), Ok(vec![make_task("late", Some(ymd(2025, 3, 1)), Priority::Unset)])),
    ];
    let tasks = m.all_tasks_from_results(results, today).unwrap();
    assert_eq!(tasks[0].title, "late");
    assert_eq!(tasks[1].title, "unplanned");
}

#[test]
fn test_flat_update_rewrites_one_line() {
    let backend = LocalFileBackend::new(LocalFileConfig { path: "/tmp/todo.txt".to_string() });
    let content = "Buy milk\n(p1) Call dentist\nWater plants #home\n";
    let today = ymd(2025, 3, 10);
    let update = TaskUpdate {
        title: None,
        status: Some(TaskStatus::Done),
        priority: None,
        due: None,
        tags: None,
    };
    let (new_content, task) = backend.apply_update(content, "local:2", &update, today).unwrap();
    assert_eq!(new_content, "Buy milk\nx 2025-03-10 (p1) Call dentist\nWater plants #home\n");
    assert_eq!(task.status, TaskStatus::Done);
    assert_eq!(task.title, "Call dentist");
}

#[test]
fn test_flat_complete_twice_is_stable() {
    let backend = LocalFileBackend::new(LocalFileConfig { path: "/tmp/todo.txt".to_string() });
    let content = "Buy milk\n";
    let today = ymd(2025, 3, 10);
    let (once, _) = backend.complete_in_content(content, "local:1", today).unwrap();
    let (twice, task) = backend.complete_in_content(&once, "local:1", today).unwrap();
    assert_eq!(once, twice);
    assert_eq!(task.status, TaskStatus::Done);
}

#[test]
fn test_flat_delete_removes_physical_line() {
    let backend = LocalFileBackend::new(LocalFileConfig { path: "/tmp/todo.txt".to_string() });
    let content = "one\ntwo\nthree\nfour\nfive\n";
    let new_content = backend.delete_from_content(content, "local:3").unwrap();
    assert_eq!(new_content, "one\ntwo\nfour\nfive\n");
    // Identifiers are position-based: what was `local:4` now names `five`.
    let task = backend.parse_line("four", 3).unwrap();
    assert_eq!(task.id, "local:3");
}

#[test]
fn test_flat_bad_identifier_errors() {
    let backend = LocalFileBackend::new(LocalFileConfig { path: "/tmp/todo.txt".to_string() });
    let today = ymd(2025, 3, 10);
    let err = backend.apply_update("a\n", "nonsense", &TaskUpdate {
        title: None,
        status: None,
        priority: None,
        due: None,
        tags: None,
    }, today)
        .unwrap_err();
    assert_eq!(err.render(), "Parse error: Invalid task ID: nonsense");
    let err2 = backend.delete_from_content("a\n", "local:9").unwrap_err();
    assert_eq!(err2.render(), "Parse error: Line 9 not found");
}

#[test]
fn test_flat_append_new_task() {
    let backend = LocalFileBackend::new(LocalFileConfig { path: "/tmp/todo.txt".to_string() });
    let today = ymd(2025, 3, 10);
    let new_task = tasuki::model::NewTask {
        title: "Test task 2".to_string(),
        priority: Priority::Medium,
        due: Some(ymd(2025, 4, 9)),
        tags: vec![],
        backend: BackendSource::LocalFile,
    };
    let (content, task) = backend.append_new_task("Test task 1\n", &new_task, today);
    assert_eq!(content, "Test task 1\n(p2) 2025-03-10 Test task 2 due:2025-04-09\n");
    assert_eq!(task.id, "local:2");
    assert_eq!(task.created_at, Some(today));
}

#[test]
fn test_default_configuration_values() {
    let w = WaybarConfig::default();
    assert_eq!(w.tooltip_scope, "overdue_today");
    let g = GeneralConfig::default();
    assert_eq!(g.default_view, "today");
    assert_eq!(g.theme, "omarchy");
}

#[test]
fn test_backend_source_names_and_icons() {
    assert_eq!(BackendSource::Obsidian.name(), "obsidian");
    assert_eq!(BackendSource::LocalFile.name(), "local");
    assert_eq!(BackendSource::Obsidian.icon(), "\u{25c6}");
    assert_eq!(BackendSource::LocalFile.icon(), "\u{25a0}");
}
