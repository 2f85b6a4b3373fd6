use focus::config::Config;
use focus::date::Date;
use focus::groups::find_group;
use focus::notifications::candidates;
use focus::planner::build_plan;
use focus::projects::{find_project, summarize};
use focus::task::{build_task_line_with_id, complete_line, parse_task_line, Priority, Task};
use focus::tui::{tasks_for_section, Section, TodayState};
use focus::vault::{daily_note_path, section_replaced};
use focus::waiting::build_ledger;

fn ymd(y: i32, m: u32, d: u32) -> Date {
    Date::from_ymd_opt(y, m, d).unwrap()
}

fn task(path: &str, line_number: usize, line: &str) -> Task {
    parse_task_line(path.to_string(), line_number, line).unwrap()
}

#[test]
fn parses_obsidian_task_metadata() {
    let task = parse_task_line(
        "Daily Notes/2026-04-25 Sat.md".to_string(),
        3,
        "- [ ] Waiting on Alice: approve draft ⏳ 2026-04-25 📅 2026-04-26 ⏫ #waiting #work",
    )
    .unwrap();
    assert!(task.is_open());
    assert_eq!(task.person.as_deref(), Some("Alice"));
    assert_eq!(task.priority, Some(Priority::High));
    assert_eq!(task.scheduled.unwrap().to_string(), "2026-04-25");
    assert_eq!(task.due.unwrap().to_string(), "2026-04-26");
    assert!(task.is_waiting());
}

#[test]
fn parses_task_id_and_project() {
    let task = parse_task_line(
        "Projects/client.md".to_string(),
        1,
        "- [ ] Draft plan #project/client-work 🆔 abc123",
    )
    .unwrap();
    assert_eq!(task.id.as_deref(), Some("abc123"));
    assert_eq!(task.project.as_deref(), Some("client work"));
}

#[test]
fn build_task_line_adds_id() {
    let line = build_task_line_with_id(
        "Write brief",
        None,
        None,
        None,
        None,
        None,
        Some("Client Work"),
        false,
        Some("abc123"),
    );
    assert!(line.contains("#project/client-work"));
    assert!(line.contains("🆔 abc123"));
}

#[test]
fn completes_line_and_adds_done_date() {
    let today = ymd(2026, 4, 25);
    let line = complete_line("- [ ] File taxes 📅 2026-04-15", today).unwrap();
    assert_eq!(line, "- [x] File taxes 📅 2026-04-15 ✅ 2026-04-25");
}

#[test]
fn selects_due_and_scheduled_notifications() {
    let today = ymd(2026, 4, 25);
    let tasks = vec![
        task("a.md", 1, "- [ ] Late 📅 2026-04-24"),
        task("b.md", 1, "- [ ] Scheduled ⏳ 2026-04-25"),
        task("c.md", 1, "- [x] Done 📅 2026-04-25"),
    ];
    let selected = candidates(&tasks, today);
    assert_eq!(selected.len(), 2);
}

#[test]
fn classifies_overdue_due_and_waiting() {
    let today = ymd(2026, 4, 25);
    let tasks = vec![
        task("a.md", 1, "- [ ] Late 📅 2026-04-24"),
        task("b.md", 1, "- [ ] Today 📅 2026-04-25"),
        task("c.md", 1, "- [ ] Waiting on Bob: reply #waiting"),
    ];
    let plan = build_plan(&tasks, today);
    assert_eq!(plan.overdue.len(), 1);
    assert_eq!(plan.due_today.len(), 1);
    assert_eq!(plan.waiting.len(), 1);
}

#[test]
fn groups_project_tasks() {
    let today = ymd(2026, 4, 25);
    let tasks = vec![task("a.md", 1, "- [ ] Build thing #project/mpa")];
    let plan = build_plan(&tasks, today);
    let i = find_group(&plan.projects, "mpa").unwrap();
    assert_eq!(plan.projects[i].tasks.len(), 1);
}

#[test]
fn summarizes_project_counts() {
    let today = ymd(2026, 4, 25);
    let tasks = vec![
        task("a.md", 1, "- [ ] Late #project/client 📅 2026-04-24"),
        task("b.md", 1, "- [ ] Waiting on Amy: reply #waiting #project/client"),
    ];
    let summaries = summarize(&tasks, today).unwrap();
    let client = &summaries[find_project(&summaries, "client").unwrap()];
    assert_eq!(client.open.len(), 2);
    assert_eq!(client.overdue.len(), 1);
    assert_eq!(client.waiting.len(), 1);
}

#[test]
fn state_navigation_moves_sections_and_selection() {
    let mut state = TodayState::default();
    assert_eq!(state.section, Section::Inbox);
    state.next_section();
    assert_eq!(state.section, Section::Today);
    state.move_down(3);
    state.move_down(3);
    assert_eq!(state.selected, 2);
    state.next_section();
    assert_eq!(state.selected, 0);
    state.previous_section();
    assert_eq!(state.section, Section::Today);
}

#[test]
fn section_tasks_include_project_tasks() {
    let today = ymd(2026, 4, 25);
    let tasks = vec![task("a.md", 1, "- [ ] Build app #project/mpa 🆔 abc")];
    let plan = build_plan(&tasks, today);
    assert_eq!(tasks_for_section(&plan, Section::Projects).len(), 1);
}

#[test]
fn replaces_only_generated_section() {
    let raw = section_replaced(
        "before\n<!-- focus:plan:start -->\nold\n<!-- focus:plan:end -->\nafter\n",
        "plan",
        "new",
    );
    assert_eq!(
        raw,
        "before\n<!-- focus:plan:start -->\nnew\n<!-- focus:plan:end -->\nafter\n"
    );
}

#[test]
fn daily_note_path_uses_weekday_suffix() {
    let config = Config {
        vault_path: "/vault".to_string(),
        ..Config::default()
    };
    let date = ymd(2026, 4, 26);
    assert_eq!(
        daily_note_path(&config, date),
        "/vault/Daily Notes/2026-04-26 Sun.md"
    );
}

#[test]
fn groups_waiting_items_by_person() {
    let tasks = vec![
        task("a.md", 1, "- [ ] Waiting on Alice: feedback #waiting"),
        task("b.md", 1, "- [ ] Waiting on Bob: invoice #waiting"),
    ];
    let ledger = build_ledger(&tasks);
    assert_eq!(ledger.count(), 2);
    assert!(find_group(&ledger.groups, "Alice").is_some());
    assert!(find_group(&ledger.groups, "Bob").is_some());
}
