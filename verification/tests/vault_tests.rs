use tasuki::date::Date;
use tasuki::model::{NewTask, Priority, TaskFilter, TaskStatus, TaskUpdate, BackendSource};
use tasuki::obsidian::{ObsidianBackend, ObsidianConfig, entry_included, has_md_extension};

fn vault_backend() -> ObsidianBackend {
    ObsidianBackend::new(ObsidianConfig {
        vault_path: "/vault".to_string(),
        folders: None,
        ignore_folders: vec![".obsidian".to_string(), ".trash".to_string(), ".git".to_string()],
        inbox_file: "Inbox.md".to_string(),
    })
}

fn ymd(y: u32, m: u8, d: u8) -> Date {
    Date::new(y, m, d).unwrap()
}

const DAILY: &str = "\
# February 25, 2025

- [ ] Call dentist
- [ ] Buy groceries due:2025-02-26
- [x] Morning workout
";

#[test]
fn test_parse_task_id() {
    let (path, line) =
        ObsidianBackend::parse_task_id("obsidian:Daily Notes/2025-02-25.md:3").unwrap();
    assert_eq!(path, "Daily Notes/2025-02-25.md");
    assert_eq!(line, 3);
}

#[test]
fn test_parse_task_id_rejects_foreign_prefix() {
    assert!(ObsidianBackend::parse_task_id("local:3").is_err());
    assert!(ObsidianBackend::parse_task_id("obsidian:no-line-number").is_err());
    assert!(ObsidianBackend::parse_task_id("obsidian:note.md:abc").is_err());
}

#[test]
fn test_file_tasks_ids_and_fields() {
    let backend = vault_backend();
    let tasks = backend.file_tasks("Daily Notes/2025-02-25.md", DAILY);
    assert_eq!(tasks.len(), 3);
    assert_eq!(tasks[0].id, "obsidian:Daily Notes/2025-02-25.md:3");
    assert_eq!(tasks[0].title, "Call dentist");
    assert_eq!(tasks[0].status, TaskStatus::Pending);
    assert_eq!(tasks[1].due, Some(ymd(2025, 2, 26)));
    assert_eq!(tasks[2].status, TaskStatus::Done);
    assert_eq!(tasks[2].source, BackendSource::Obsidian);
    assert_eq!(tasks[2].source_line, Some(5));
    assert_eq!(tasks[2].source_path.as_deref(), Some("/vault/Daily Notes/2025-02-25.md"));
}

#[test]
fn test_fetch_pending_only() {
    let backend = vault_backend();
    let tasks = backend.file_tasks("Daily Notes/2025-02-25.md", DAILY);
    let filter = TaskFilter { status: Some(TaskStatus::Pending), ..Default::default() };
    let kept = backend.filter_fetched(tasks, &filter);
    assert!(kept.iter().all(|t| t.status == TaskStatus::Pending));
    assert_eq!(kept.len(), 2);
}

#[test]
fn test_search_filter_is_case_insensitive() {
    let backend = vault_backend();
    let tasks = backend.file_tasks("Daily Notes/2025-02-25.md", DAILY);
    let filter = TaskFilter { search: Some("GROCER".to_string()), ..Default::default() };
    let kept = backend.filter_fetched(tasks, &filter);
    assert_eq!(kept.len(), 1);
    assert_eq!(kept[0].title, "Buy groceries");
}

#[test]
fn test_due_before_keeps_undated_tasks() {
    let backend = vault_backend();
    let tasks = backend.file_tasks("Daily Notes/2025-02-25.md", DAILY);
    let filter = TaskFilter {
        status: None,
        due_before: Some(ymd(2025, 2, 25)),
        due_after: None,
        search: None,
    };
    let kept = backend.filter_fetched(tasks, &filter);
    // The vault filter keeps tasks without a due date; only the dated
    // task past the bound is dropped.
    let titles: Vec<&str> = kept.iter().map(|t| t.title.as_str()).collect();
    assert_eq!(titles, vec!["Call dentist", "Morning workout"]);
}

#[test]
fn test_complete_task_line() {
    let backend = vault_backend();
    let updated = backend.complete_in_content(DAILY, 3).unwrap();
    assert!(updated.contains("- [x] Call dentist"));
    assert!(updated.contains("- [ ] Buy groceries due:2025-02-26"));
}

#[test]
fn test_complete_is_idempotent_on_content() {
    let backend = vault_backend();
    let once = backend.complete_in_content(DAILY, 3).unwrap();
    let twice = backend.complete_in_content(&once, 3).unwrap();
    assert_eq!(once, twice);
}

#[test]
fn test_uncomplete_task_line() {
    let backend = vault_backend();
    let updated = backend.uncomplete_in_content(DAILY, 5).unwrap();
    assert!(updated.contains("- [ ] Morning workout"));
}

#[test]
fn test_delete_task_line() {
    let backend = vault_backend();
    let updated = backend.delete_in_content(DAILY, 3).unwrap();
    assert!(!updated.contains("Call dentist"));
    assert!(updated.contains("Buy groceries"));
}

#[test]
fn test_line_mutations_out_of_range() {
    let backend = vault_backend();
    assert!(backend.complete_in_content(DAILY, 0).is_err());
    assert!(backend.complete_in_content(DAILY, 99).is_err());
    assert!(backend.delete_in_content(DAILY, 99).is_err());
}

#[test]
fn test_create_task() {
    let backend = vault_backend();
    let new_task = NewTask {
        title: "New task from tasuki".to_string(),
        priority: Priority::High,
        due: Some(ymd(2025, 4, 1)),
        tags: vec!["work".to_string()],
        backend: BackendSource::Obsidian,
    };
    let (content, task) = backend.append_to_inbox("", &new_task);
    assert_eq!(task.title, "New task from tasuki");
    assert_eq!(task.source, BackendSource::Obsidian);
    assert!(content.contains("- [ ] New task from tasuki \u{23EB} \u{1F4C5} 2025-04-01 #work"));
    assert_eq!(task.id, "obsidian:Inbox.md:1");
}

#[test]
fn test_update_task_rebuilds_line() {
    let backend = vault_backend();
    let update = TaskUpdate {
        title: Some("Call the dentist".to_string()),
        status: Some(TaskStatus::Done),
        priority: Some(Priority::Low),
        due: None,
        tags: None,
    };
    let (content, task) = backend
        .update_in_content(DAILY, "Daily Notes/2025-02-25.md", 3, "obsidian:Daily Notes/2025-02-25.md:3", &update)
        .unwrap();
    assert!(content.contains("- [x] Call the dentist \u{1F53D}"));
    assert_eq!(task.title, "Call the dentist");
    assert_eq!(task.status, TaskStatus::Done);
    assert_eq!(task.priority, Priority::Low);
    assert_eq!(task.id, "obsidian:Daily Notes/2025-02-25.md:3");
}

#[test]
fn test_update_rejects_non_checkbox_line() {
    let backend = vault_backend();
    let update = TaskUpdate { title: None, status: None, priority: None, due: None, tags: None };
    let err = backend
        .update_in_content(DAILY, "Daily Notes/2025-02-25.md", 1, "obsidian:Daily Notes/2025-02-25.md:1", &update)
        .unwrap_err();
    assert!(err.render().contains("is not a checkbox"));
}

#[test]
fn test_vault_name() {
    let backend = vault_backend();
    assert_eq!(backend.config.vault_name(), "vault");
    let other = ObsidianBackend::new(ObsidianConfig {
        vault_path: "/home/someone/Notes/".to_string(),
        folders: None,
        ignore_folders: vec![],
        inbox_file: "Inbox.md".to_string(),
    });
    assert_eq!(other.config.vault_name(), "Notes");
}

#[test]
fn test_scanner_rules() {
    let ignore = vec![".obsidian".to_string(), ".git".to_string()];
    assert!(!entry_included(".hidden", false, false, &ignore));
    assert!(entry_included(".hidden", false, true, &ignore));
    assert!(!entry_included(".git", true, false, &ignore));
    assert!(entry_included("Daily Notes", true, false, &ignore));
    assert!(has_md_extension("/vault/Daily Notes/2025-02-25.md"));
    assert!(!has_md_extension("/vault/notes.txt"));
    assert!(!has_md_extension("/vault/.md"));
}

#[test]
fn test_folder_allow_list() {
    let backend = ObsidianBackend::new(ObsidianConfig {
        vault_path: "/vault".to_string(),
        folders: Some(vec!["Daily Notes".to_string()]),
        ignore_folders: vec![],
        inbox_file: "Inbox.md".to_string(),
    });
    assert!(backend.in_allowed_folders("Daily Notes/2025-02-25.md"));
    assert!(!backend.in_allowed_folders("Daily Notes2/2025-02-25.md"));
    assert!(!backend.in_allowed_folders("Archive/old.md"));
}

#[test]
fn test_urlencoding_simple() {
    assert_eq!(tasuki::obsidian::urlencoding_simple("Daily Notes/a#b"), "Daily%20Notes%2Fa%23b");
}

#[test]
fn test_resolve_path() {
    let backend = vault_backend();
    assert_eq!(backend.resolve_path("Inbox.md"), "/vault/Inbox.md");
    assert_eq!(backend.resolve_path("/abs/other.md"), "/abs/other.md");
}
