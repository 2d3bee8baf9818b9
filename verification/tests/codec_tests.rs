use tasuki::date::Date;
use tasuki::localfile::{LocalFileBackend, LocalFileConfig};
use tasuki::model::{Priority, TaskStatus};
use tasuki::parser::{parse_checkbox_line, parse_file};

fn local_backend() -> LocalFileBackend {
    let config = LocalFileConfig { path: "/tmp/test.txt".to_string() };
    LocalFileBackend::new(config)
}

fn ymd(y: u32, m: u8, d: u8) -> Date {
    Date::new(y, m, d).unwrap()
}

#[test]
fn localfile_test_parse_simple_task() {
    let backend = local_backend();
    let task = backend.parse_line("Buy milk", 1).unwrap();
    assert_eq!(task.title, "Buy milk");
    assert_eq!(task.status, TaskStatus::Pending);
    assert_eq!(task.priority, Priority::Unset);
}

#[test]
fn test_parse_priority_task() {
    let backend = local_backend();
    let task = backend.parse_line("(p1) Call dentist", 1).unwrap();
    assert_eq!(task.title, "Call dentist");
    assert_eq!(task.priority, Priority::High);
}

#[test]
fn test_parse_done_task() {
    let backend = local_backend();
    let task = backend.parse_line("x 2025-02-20 Buy milk", 1).unwrap();
    assert_eq!(task.title, "Buy milk");
    assert_eq!(task.status, TaskStatus::Done);
}

#[test]
fn test_parse_with_due_date() {
    let backend = local_backend();
    let task = backend.parse_line("Buy groceries due:2025-02-25", 1).unwrap();
    assert_eq!(task.title, "Buy groceries");
    assert_eq!(task.due, Some(ymd(2025, 2, 25)));
}

#[test]
fn test_plain_checkbox_pending() {
    let result = parse_checkbox_line("- [ ] Buy groceries").unwrap();
    assert_eq!(result.title, "Buy groceries");
    assert_eq!(result.status, TaskStatus::Pending);
    assert_eq!(result.priority, Priority::Unset);
    assert_eq!(result.due, None);
}

#[test]
fn test_plain_checkbox_done() {
    let result = parse_checkbox_line("- [x] Submit report").unwrap();
    assert_eq!(result.title, "Submit report");
    assert_eq!(result.status, TaskStatus::Done);
}

#[test]
fn test_uppercase_x() {
    let result = parse_checkbox_line("- [X] Submit report").unwrap();
    assert_eq!(result.status, TaskStatus::Done);
}

#[test]
fn test_indented_checkbox() {
    let result = parse_checkbox_line("    - [ ] Nested task").unwrap();
    assert_eq!(result.title, "Nested task");
    assert_eq!(result.status, TaskStatus::Pending);
}

#[test]
fn test_tasks_plugin_due_date() {
    let result = parse_checkbox_line("- [ ] Fix bug \u{1F4C5} 2025-03-15").unwrap();
    assert_eq!(result.title, "Fix bug");
    assert_eq!(result.due, Some(ymd(2025, 3, 15)));
}

#[test]
fn test_tasks_plugin_completion_date() {
    let result =
        parse_checkbox_line("- [x] Done thing \u{1F4C5} 2025-01-15 \u{2705} 2025-01-14").unwrap();
    assert_eq!(result.title, "Done thing");
    assert_eq!(result.status, TaskStatus::Done);
    assert_eq!(result.due, Some(ymd(2025, 1, 15)));
    assert_eq!(result.completed_at, Some(ymd(2025, 1, 14)));
}

#[test]
fn test_tasks_plugin_priority_high() {
    let result = parse_checkbox_line("- [ ] Important task \u{23EB}").unwrap();
    assert_eq!(result.title, "Important task");
    assert_eq!(result.priority, Priority::High);
}

#[test]
fn test_tasks_plugin_priority_medium() {
    let result = parse_checkbox_line("- [ ] Normal task \u{1F53C}").unwrap();
    assert_eq!(result.title, "Normal task");
    assert_eq!(result.priority, Priority::Medium);
}

#[test]
fn test_tasks_plugin_priority_low() {
    let result = parse_checkbox_line("- [ ] Low task \u{1F53D}").unwrap();
    assert_eq!(result.title, "Low task");
    assert_eq!(result.priority, Priority::Low);
}

#[test]
fn test_inline_priority() {
    let result = parse_checkbox_line("- [ ] Fix bug (p1)").unwrap();
    assert_eq!(result.title, "Fix bug");
    assert_eq!(result.priority, Priority::High);
}

#[test]
fn test_tags() {
    let result = parse_checkbox_line("- [ ] Review PR #work #urgent").unwrap();
    assert_eq!(result.title, "Review PR");
    assert_eq!(result.tags, vec!["work", "urgent"]);
}

#[test]
fn test_due_date_todotxt_style() {
    let result = parse_checkbox_line("- [ ] Call dentist due:2025-03-20").unwrap();
    assert_eq!(result.title, "Call dentist");
    assert_eq!(result.due, Some(ymd(2025, 3, 20)));
}

#[test]
fn test_full_tasks_plugin_line() {
    let result = parse_checkbox_line(
        "- [ ] Review PR #work \u{23EB} \u{1F4C5} 2025-03-15 \u{2795} 2025-03-01",
    )
    .unwrap();
    assert_eq!(result.title, "Review PR");
    assert_eq!(result.priority, Priority::High);
    assert_eq!(result.due, Some(ymd(2025, 3, 15)));
    assert_eq!(result.created_at, Some(ymd(2025, 3, 1)));
    assert_eq!(result.tags, vec!["work"]);
}

#[test]
fn test_recurrence_skipped() {
    let result =
        parse_checkbox_line("- [ ] Weekly review \u{1F501} every Monday \u{1F4C5} 2025-03-17")
            .unwrap();
    assert_eq!(result.title, "Weekly review");
    assert_eq!(result.due, Some(ymd(2025, 3, 17)));
}

#[test]
fn test_not_a_checkbox() {
    assert!(parse_checkbox_line("Just some text").is_none());
    assert!(parse_checkbox_line("- Regular list item").is_none());
    assert!(parse_checkbox_line("* [ ] Asterisk checkbox").is_none());
    assert!(parse_checkbox_line("").is_none());
    assert!(parse_checkbox_line("# Heading").is_none());
}

#[test]
fn test_empty_checkbox() {
    assert!(parse_checkbox_line("- [ ] ").is_none());
}

#[test]
fn test_parse_file_basic() {
    let content = "\
# Project Alpha

## Tasks
- [ ] First task \u{1F4C5} 2025-03-15
- [x] Done task \u{2705} 2025-03-10
- Regular list item

## Notes
Some notes here
- [ ] Another task #work
";
    let tasks = parse_file(content);
    assert_eq!(tasks.len(), 3);
    assert_eq!(tasks[0].0, 4);
    assert_eq!(tasks[0].1.title, "First task");
    assert_eq!(tasks[1].0, 5);
    assert_eq!(tasks[1].1.status, TaskStatus::Done);
    assert_eq!(tasks[2].0, 10);
    assert_eq!(tasks[2].1.title, "Another task");
}

#[test]
fn test_parse_file_skips_code_blocks() {
    let content = "\
- [ ] Real task

```
- [ ] Not a task (in code block)
```

- [ ] Another real task

```markdown
- [ ] Also not a task
```
";
    let tasks = parse_file(content);
    assert_eq!(tasks.len(), 2);
    assert_eq!(tasks[0].1.title, "Real task");
    assert_eq!(tasks[1].1.title, "Another real task");
}

#[test]
fn test_parse_file_empty() {
    let tasks = parse_file("");
    assert!(tasks.is_empty());
}

#[test]
fn test_parse_file_no_tasks() {
    let content = "# Just a heading\n\nSome paragraph text.\n";
    let tasks = parse_file(content);
    assert!(tasks.is_empty());
}

#[test]
fn test_flat_format_parse_round_trip() {
    let backend = local_backend();
    let line = tasuki::localfile::format_flat_line(
        TaskStatus::Done,
        &ymd(2025, 2, 20),
        Priority::Medium,
        &Some(ymd(2025, 1, 2)),
        &"Water the plants".to_string(),
        &vec!["home".to_string()],
        &Some(ymd(2025, 2, 28)),
    );
    let line_s: String = line.iter().collect();
    assert_eq!(line_s, "x 2025-02-20 (p2) 2025-01-02 Water the plants #home due:2025-02-28");
    let task = backend.parse_line(&line_s, 7).unwrap();
    assert_eq!(task.id, "local:7");
    assert_eq!(task.title, "Water the plants");
    assert_eq!(task.status, TaskStatus::Done);
    assert_eq!(task.priority, Priority::Medium);
    assert_eq!(task.due, Some(ymd(2025, 2, 28)));
    assert_eq!(task.completed_at, Some(ymd(2025, 2, 20)));
    assert_eq!(task.created_at, Some(ymd(2025, 1, 2)));
    assert_eq!(task.tags, vec!["home"]);
}

#[test]
fn test_md_format_parse_round_trip() {
    let line = tasuki::obsidian::format_md_line(
        TaskStatus::Pending,
        &"Plan the trip".to_string(),
        Priority::High,
        &Some(ymd(2025, 6, 1)),
        &vec!["travel".to_string()],
    );
    let line_s: String = line.iter().collect();
    assert_eq!(line_s, "- [ ] Plan the trip \u{23EB} \u{1F4C5} 2025-06-01 #travel");
    let parsed = parse_checkbox_line(&line_s).unwrap();
    assert_eq!(parsed.title, "Plan the trip");
    assert_eq!(parsed.status, TaskStatus::Pending);
    assert_eq!(parsed.priority, Priority::High);
    assert_eq!(parsed.due, Some(ymd(2025, 6, 1)));
    assert_eq!(parsed.tags, vec!["travel"]);
}

#[test]
fn test_invalid_calendar_date_rejected() {
    assert!(Date::new(2025, 2, 29).is_none());
    assert!(Date::new(2024, 2, 29).is_some());
    let result = parse_checkbox_line("- [ ] Off by one \u{1F4C5} 2025-02-29").unwrap();
    assert_eq!(result.due, None);
    assert_eq!(result.title, "Off by one \u{1F4C5} 2025-02-29");
}

#[test]
fn test_done_task_records_completion_date() {
    let backend = local_backend();
    let task = backend.parse_line("x 2025-02-20 Buy milk", 1).unwrap();
    assert_eq!(task.completed_at, Some(ymd(2025, 2, 20)));
    assert_eq!(task.id, "local:1");
}

#[test]
fn test_fenced_checkbox_never_a_task_even_indented() {
    let content = "\
```text
    - [ ] Deeply indented but fenced
- [x] Fenced and checked
```
- [ ] After the fence
";
    let tasks = parse_file(content);
    assert_eq!(tasks.len(), 1);
    assert_eq!(tasks[0].0, 5);
    assert_eq!(tasks[0].1.title, "After the fence");
}

#[test]
fn test_flat_due_before_drops_undated_tasks() {
    let backend = local_backend();
    let content = "Undated chore\nDated chore due:2025-02-20\nLate chore due:2025-03-01\n";
    let filter = tasuki::model::TaskFilter {
        status: None,
        due_before: Some(ymd(2025, 2, 25)),
        due_after: None,
        search: None,
    };
    let tasks = backend.fetch_from_content(content, &filter);
    // The flat-file filter requires a due date at or before the bound.
    let titles: Vec<&str> = tasks.iter().map(|t| t.title.as_str()).collect();
    assert_eq!(titles, vec!["Dated chore"]);
}

#[test]
fn test_comment_and_blank_lines_are_not_tasks() {
    let backend = local_backend();
    assert!(backend.parse_line("", 1).is_none());
    assert!(backend.parse_line("   ", 2).is_none());
    assert!(backend.parse_line("# a comment", 3).is_none());
    assert!(backend.parse_line("(p1) due:2025-01-01", 4).is_none());
}
