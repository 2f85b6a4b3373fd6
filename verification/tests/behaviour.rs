use focus::config::Config;
use focus::date::{parse_date, Date};
use focus::groups::find_group;
use focus::notifications::{candidates, launch_agent_plist};
use focus::paths::is_vault_note;
use focus::planner::{build_plan, render_plan, render_summary};
use focus::projects::{find_project, render_project, render_projects, summarize};
use focus::review::{parse_priority, review_counts};
use focus::task::{
    build_task_line, build_task_line_with_id, complete_line, line_with_due, line_with_id,
    line_with_scheduled, parse_line_only, parse_task_line, slug, task_id_from_time, Priority,
    Task,
};
use focus::tui::{handle_key, tasks_for_section, Action, Key, Section, TodayState};
use focus::vault::{
    backfill_note, backfill_note_with, complete_in_text, count_missing_ids, daily_note_path,
    edit_line_in_text, find_task_by_id, scan_note, section_appended, section_replaced, EditError,
    IdError, LineEdit,
};
use focus::waiting::{build_ledger, render_ledger};

fn ymd(y: i32, m: u32, d: u32) -> Date {
    Date::from_ymd_opt(y, m, d).unwrap()
}

fn task(path: &str, line_number: usize, line: &str) -> Task {
    parse_task_line(path.to_string(), line_number, line).unwrap()
}

// ---------------------------------------------------------------------------
// Parsing
// ---------------------------------------------------------------------------

#[test]
fn non_task_lines_do_not_parse() {
    assert!(parse_line_only("plain text").is_none());
    assert!(parse_line_only("- [ ]").is_none());
    assert!(parse_line_only("-[ ] missing space").is_none());
    assert!(parse_line_only("- [] empty status").is_none());
    assert!(parse_line_only("1. [ ] numbered").is_none());
}

#[test]
fn indent_marker_and_status_are_read() {
    let t = task("n.md", 4, "  * [x] Done thing");
    assert_eq!(t.indent, "  ");
    assert_eq!(t.marker, '*');
    assert_eq!(t.status, 'x');
    assert_eq!(t.text, "Done thing");
    assert_eq!(t.line_number, 4);
    assert!(t.is_done());
    assert!(!t.is_open());
    let p = task("n.md", 1, "+ [/] Half way");
    assert!(p.is_open());
    let big = task("n.md", 1, "- [X] Upper");
    assert!(big.is_done());
}

#[test]
fn every_date_kind_is_read() {
    let t = task(
        "n.md",
        1,
        "- [x] T 🛫 2026-04-01 ➕ 2026-03-01 ⏳ 2026-04-02 📅 2026-04-03 ✅ 2026-04-04",
    );
    assert_eq!(t.start, Some(ymd(2026, 4, 1)));
    assert_eq!(t.created, Some(ymd(2026, 3, 1)));
    assert_eq!(t.scheduled, Some(ymd(2026, 4, 2)));
    assert_eq!(t.due, Some(ymd(2026, 4, 3)));
    assert_eq!(t.done, Some(ymd(2026, 4, 4)));
}

#[test]
fn invalid_or_short_dates_are_absent() {
    assert_eq!(task("n.md", 1, "- [ ] A 📅 2026-13-01").due, None);
    assert_eq!(task("n.md", 1, "- [ ] A 📅 2026-02-30").due, None);
    assert_eq!(task("n.md", 1, "- [ ] A 📅 2026-04").due, None);
    assert_eq!(task("n.md", 1, "- [ ] A 📅    2026-04-24").due, Some(ymd(2026, 4, 24)));
    // Only the first marker counts.
    assert_eq!(task("n.md", 1, "- [ ] A 📅 soon 📅 2026-04-24").due, None);
}

#[test]
fn ids_need_whitespace_after_the_marker() {
    assert_eq!(task("n.md", 1, "- [ ] A 🆔abc").id, None);
    assert_eq!(task("n.md", 1, "- [ ] A 🆔  abc def").id.as_deref(), Some("abc"));
    assert_eq!(task("n.md", 1, "- [ ] A 🆔x 🆔 y1").id.as_deref(), Some("y1"));
}

#[test]
fn priorities_take_the_highest_emoji() {
    assert_eq!(task("n.md", 1, "- [ ] A 🔺").priority, Some(Priority::Highest));
    assert_eq!(task("n.md", 1, "- [ ] A ⏫").priority, Some(Priority::High));
    assert_eq!(task("n.md", 1, "- [ ] A 🔼").priority, Some(Priority::Medium));
    assert_eq!(task("n.md", 1, "- [ ] A 🔽").priority, Some(Priority::Low));
    assert_eq!(task("n.md", 1, "- [ ] A ⏬").priority, Some(Priority::Lowest));
    assert_eq!(task("n.md", 1, "- [ ] A ⏬ 🔺").priority, Some(Priority::Highest));
    assert_eq!(task("n.md", 1, "- [ ] A").priority, None);
}

#[test]
fn tags_lose_trailing_punctuation() {
    let t = task("n.md", 1, "- [ ] A #work, #home. #x;, # #project/client-work.");
    assert_eq!(t.tags, vec!["#work", "#home", "#x", "#project/client-work"]);
    assert_eq!(t.project.as_deref(), Some("client work"));
}

#[test]
fn person_comes_from_the_lead_or_the_tag() {
    assert_eq!(task("n.md", 1, "- [ ] WAITING ON Dan : x").person.as_deref(), Some("Dan"));
    assert_eq!(task("n.md", 1, "- [ ] Waiting for Carol: x").person.as_deref(), Some("Carol"));
    let t = task("n.md", 1, "- [ ] Chase invoice #waiting/bob-smith");
    assert_eq!(t.person.as_deref(), Some("bob smith"));
    assert!(t.is_waiting());
    assert_eq!(task("n.md", 1, "- [ ] waiting on nobody").person, None);
}

#[test]
fn source_ref_prefers_the_id() {
    assert_eq!(task("a.md", 7, "- [ ] A 🆔 k9").source_ref(), "🆔 k9");
    assert_eq!(task("a.md", 7, "- [ ] A").source_ref(), "a.md:7");
}

#[test]
fn priority_names() {
    assert_eq!(Priority::from_name("medium"), Some(Priority::Medium));
    assert_eq!(Priority::from_name("High"), None);
    assert_eq!(Priority::Lowest.emoji(), "⏬");
    assert_eq!(parse_priority("highest"), Ok(Priority::Highest));
    assert_eq!(
        parse_priority("urgent"),
        Err("expected highest, high, medium, low, or lowest".to_string())
    );
}

// ---------------------------------------------------------------------------
// Dates
// ---------------------------------------------------------------------------

#[test]
fn dates_exist_only_on_the_calendar() {
    assert!(Date::from_ymd_opt(2026, 2, 29).is_none());
    assert!(Date::from_ymd_opt(2024, 2, 29).is_some());
    assert!(Date::from_ymd_opt(2026, 0, 1).is_none());
    assert!(Date::from_ymd_opt(262143, 1, 1).is_none());
    assert!(ymd(2026, 4, 24).is_before(&ymd(2026, 4, 25)));
    assert!(!ymd(2026, 4, 25).is_before(&ymd(2026, 4, 25)));
}

#[test]
fn date_text_matches_chrono() {
    assert_eq!(ymd(2026, 4, 5).to_string(), "2026-04-05");
    assert_eq!(ymd(99, 1, 2).to_string(), "0099-01-02");
    assert_eq!(ymd(10000, 1, 1).to_string(), "+10000-01-01");
    assert_eq!(ymd(-1, 12, 31).to_string(), "-0001-12-31");
    assert_eq!(task("n.md", 1, "- [ ] A 📅 2026-04-05").due, Some(ymd(2026, 4, 5)));
    assert_eq!(task("n.md", 1, "- [ ] A 📅 2026-04-31").due, None);
}

#[test]
fn calendar_arithmetic_comes_from_chrono() {
    // Deferring moves the due date to the next calendar day.
    for (today, tomorrow) in [
        (ymd(2026, 4, 30), ymd(2026, 5, 1)),
        (ymd(2024, 2, 28), ymd(2024, 2, 29)),
        (ymd(2025, 12, 31), ymd(2026, 1, 1)),
    ] {
        let name = format!("Daily/{}.md", today.to_string());
        let plan = build_plan(&vec![task(&name, 1, "- [ ] T 🆔 t1")], today);
        let mut st = TodayState::default();
        assert_eq!(
            handle_key(&mut st, Key::Char('f'), &plan, today),
            Action::Edit("t1".to_string(), LineEdit::Defer(tomorrow))
        );
    }
    // Daily notes carry the weekday that chrono computes.
    let config = Config { vault_path: "/v".to_string(), ..Config::default() };
    assert_eq!(daily_note_path(&config, ymd(2026, 4, 27)), "/v/Daily Notes/2026-04-27 Mon.md");
    assert_eq!(daily_note_path(&config, ymd(2026, 4, 26)), "/v/Daily Notes/2026-04-26 Sun.md");
    assert_eq!(daily_note_path(&config, ymd(2024, 2, 29)), "/v/Daily Notes/2024-02-29 Thu.md");
}

// ---------------------------------------------------------------------------
// Building and editing lines
// ---------------------------------------------------------------------------

#[test]
fn capture_line_holds_every_part_in_order() {
    let line = build_task_line_with_id(
        "approve proposal",
        Some(ymd(2026, 4, 30)),
        Some(ymd(2026, 4, 28)),
        Some(ymd(2026, 4, 27)),
        Some(Priority::High),
        Some("Alice"),
        Some("Product Launch!"),
        true,
        Some("f1"),
    );
    assert_eq!(
        line,
        "- [ ] Waiting on Alice: approve proposal ⏫ 🛫 2026-04-27 ⏳ 2026-04-28 📅 2026-04-30 #waiting #project/product-launch 🆔 f1"
    );
    // The law on capture: the line reads back.
    let t = parse_line_only(&line).unwrap();
    assert!(t.is_open());
    assert_eq!(t.id.as_deref(), Some("f1"));
    assert_eq!(t.due, Some(ymd(2026, 4, 30)));
    assert_eq!(t.scheduled, Some(ymd(2026, 4, 28)));
    assert_eq!(t.start, Some(ymd(2026, 4, 27)));
    assert_eq!(t.person.as_deref(), Some("Alice"));
}

#[test]
fn capture_keeps_existing_waiting_tag_and_id() {
    let line = build_task_line_with_id(
        "ping #waiting 🆔 old",
        None,
        None,
        None,
        None,
        None,
        None,
        true,
        Some("new"),
    );
    assert_eq!(line, "- [ ] ping #waiting 🆔 old");
}

#[test]
fn fresh_ids_come_from_the_clock() {
    assert_eq!(task_id_from_time(255, 16), "fff10");
    assert_eq!(task_id_from_time(0, 0), "f00");
    let line = build_task_line("x", None, None, None, None, None, None, false);
    let t = parse_line_only(&line).unwrap();
    let id = t.id.unwrap();
    assert!(id.starts_with('f'));
    assert!(id.len() >= 3);
}

#[test]
fn slugs_are_lower_case_ascii_runs() {
    assert_eq!(slug("  Client Work!! "), "client-work");
    assert_eq!(slug("ABC Def"), "abc-def");
    assert_eq!(slug("Ärger über"), "rger-ber");
    assert_eq!(slug("---"), "");
}

#[test]
fn completing_is_idempotent() {
    let today = ymd(2026, 4, 25);
    let once = complete_line("  * [ ] Pay rent 📅 2026-04-01", today).unwrap();
    assert_eq!(once, "  * [x] Pay rent 📅 2026-04-01 ✅ 2026-04-25");
    let twice = complete_line(&once, today).unwrap();
    assert_eq!(twice, once);
    let t = parse_line_only(&once).unwrap();
    assert!(t.is_done());
    assert_eq!(t.done, Some(today));
    assert_eq!(complete_line("- [x] A ✅ 2026-01-01", today).unwrap(), "- [x] A ✅ 2026-01-01");
    assert_eq!(complete_line("not a task", today), None);
}

#[test]
fn adding_an_id_keeps_an_existing_one() {
    assert_eq!(line_with_id("- [ ] A", "k1").unwrap(), "- [ ] A 🆔 k1");
    assert_eq!(line_with_id("- [ ] A 🆔 x1", "k1").unwrap(), "- [ ] A 🆔 x1");
    let t = parse_line_only(&line_with_id("- [/] B", "k2").unwrap()).unwrap();
    assert_eq!(t.id.as_deref(), Some("k2"));
    assert_eq!(t.status, '/');
    assert_eq!(line_with_id("B", "k1"), None);
}

#[test]
fn scheduling_replaces_or_appends_the_date() {
    let today = ymd(2026, 4, 25);
    assert_eq!(
        line_with_scheduled("- [ ] B ⏳ 2026-01-01 #x", today).unwrap(),
        "- [ ] B ⏳ 2026-04-25 #x"
    );
    assert_eq!(line_with_scheduled("- [ ] B", today).unwrap(), "- [ ] B ⏳ 2026-04-25");
    assert_eq!(
        line_with_due("- [ ] B 📅 later", today).unwrap(),
        "- [ ] B 📅 later 📅 2026-04-25"
    );
    assert_eq!(line_with_due("text", today), None);
}

// ---------------------------------------------------------------------------
// Notes: sections, scanning, edits, backfill
// ---------------------------------------------------------------------------

#[test]
fn a_missing_section_is_appended_after_a_blank_line() {
    assert_eq!(
        section_replaced("text", "plan", "b"),
        "text\n\n<!-- focus:plan:start -->\nb\n<!-- focus:plan:end -->\n"
    );
    assert_eq!(
        section_replaced("text\n", "plan", "b"),
        "text\n\n<!-- focus:plan:start -->\nb\n<!-- focus:plan:end -->\n"
    );
    assert_eq!(
        section_replaced("", "plan", "b"),
        "<!-- focus:plan:start -->\nb\n<!-- focus:plan:end -->\n"
    );
}

#[test]
fn replacing_twice_is_replacing_once() {
    let raw = "a\n<!-- focus:plan:start -->\nold\n<!-- focus:plan:end -->\nz";
    let once = section_replaced(raw, "plan", "one");
    let twice = section_replaced(&once, "plan", "two");
    assert_eq!(twice, section_replaced(raw, "plan", "two"));
    assert_eq!(twice, "a\n<!-- focus:plan:start -->\ntwo\n<!-- focus:plan:end -->\nz");
}

#[test]
fn other_sections_are_left_alone() {
    let raw = "<!-- focus:inbox:start -->\nkeep\n<!-- focus:inbox:end -->\n";
    assert_eq!(
        section_replaced(raw, "plan", "p"),
        "<!-- focus:inbox:start -->\nkeep\n<!-- focus:inbox:end -->\n\n<!-- focus:plan:start -->\np\n<!-- focus:plan:end -->\n"
    );
}

#[test]
fn capture_lands_inside_the_inbox() {
    let raw = "# Day\n<!-- focus:inbox:start -->\n## Inbox\n<!-- focus:inbox:end -->\nafter\n";
    assert_eq!(
        section_appended(raw, "inbox", "Inbox", "- [ ] A"),
        "# Day\n<!-- focus:inbox:start -->\n## Inbox\n- [ ] A\n<!-- focus:inbox:end -->\nafter\n"
    );
    assert_eq!(
        section_appended("", "inbox", "Inbox", "- [ ] A"),
        "<!-- focus:inbox:start -->\n## Inbox\n- [ ] A\n<!-- focus:inbox:end -->\n"
    );
    assert_eq!(
        section_appended("x<!-- focus:inbox:start --><!-- focus:inbox:end -->", "inbox", "Inbox", "- [ ] B"),
        "x<!-- focus:inbox:start -->\n- [ ] B\n<!-- focus:inbox:end -->"
    );
}

#[test]
fn scanning_skips_generated_sections_but_the_inbox() {
    let raw = "- [ ] Source\n<!-- focus:plan:start -->\n- [ ] Copy in plan\n<!-- focus:plan:end -->\n<!-- focus:inbox:start -->\n- [ ] Captured\n<!-- focus:inbox:end -->\ntext\n  - [x] Nested done\n";
    let ts = scan_note("d.md", raw);
    let texts: Vec<&str> = ts.iter().map(|t| t.text.as_str()).collect();
    assert_eq!(texts, vec!["Source", "Captured", "Nested done"]);
    let lines: Vec<usize> = ts.iter().map(|t| t.line_number).collect();
    assert_eq!(lines, vec![1, 6, 9]);
    assert_eq!(ts[0].path, "d.md");
}

#[test]
fn editing_changes_only_the_target_line() {
    let today = ymd(2026, 4, 25);
    assert_eq!(
        complete_in_text("a\n- [ ] B\nc\n", 2, today),
        Ok("a\n- [x] B ✅ 2026-04-25\nc\n".to_string())
    );
    assert_eq!(
        complete_in_text("a\n- [ ] B\nc", 2, today),
        Ok("a\n- [x] B ✅ 2026-04-25\nc".to_string())
    );
    assert_eq!(
        edit_line_in_text("- [ ] B ⏳ 2026-01-01\nrest\n", 1, LineEdit::Schedule(today)),
        Ok("- [ ] B ⏳ 2026-04-25\nrest\n".to_string())
    );
    assert_eq!(
        edit_line_in_text("x\n- [ ] B", 2, LineEdit::Defer(ymd(2026, 4, 26))),
        Ok("x\n- [ ] B 📅 2026-04-26".to_string())
    );
}

#[test]
fn edit_errors() {
    let today = ymd(2026, 4, 25);
    assert_eq!(complete_in_text("- [ ] A\n", 0, today), Err(EditError::LineZero));
    assert_eq!(complete_in_text("- [ ] A\n", 2, today), Err(EditError::NoSuchLine));
    assert_eq!(complete_in_text("plain\n", 1, today), Err(EditError::NotATask));
    assert_eq!(complete_in_text("", 1, today), Err(EditError::NoSuchLine));
}

#[test]
fn ids_must_name_exactly_one_task() {
    let tasks = vec![
        task("a.md", 1, "- [ ] A 🆔 one"),
        task("a.md", 2, "- [ ] B 🆔 two"),
        task("b.md", 1, "- [ ] C 🆔 two"),
    ];
    assert_eq!(find_task_by_id(&tasks, "one"), Ok(0));
    assert_eq!(find_task_by_id(&tasks, "two"), Err(IdError::Duplicate));
    assert_eq!(find_task_by_id(&tasks, "three"), Err(IdError::NotFound));
}

#[test]
fn backfill_touches_only_open_source_tasks_without_ids() {
    let raw = "- [ ] A\n- [ ] B 🆔 keep\n- [x] C\n<!-- focus:plan:start -->\n- [ ] D\n<!-- focus:plan:end -->\n- [/] E\n";
    assert_eq!(count_missing_ids(raw), 2);
    let ids = vec!["i1".to_string(), "i2".to_string()];
    let (out, n) = backfill_note_with(raw, &ids);
    assert_eq!(n, 2);
    assert_eq!(
        out,
        "- [ ] A 🆔 i1\n- [ ] B 🆔 keep\n- [x] C\n<!-- focus:plan:start -->\n- [ ] D\n<!-- focus:plan:end -->\n- [/] E 🆔 i2\n"
    );
    let (fresh, m) = backfill_note("- [ ] Q");
    assert_eq!(m, 1);
    assert!(fresh.starts_with("- [ ] Q 🆔 f"));
    assert_eq!(backfill_note("nothing here"), ("nothing here".to_string(), 0));
}

#[test]
fn daily_notes_are_named_by_date_and_weekday() {
    let config = Config { vault_path: "/vault".to_string(), ..Config::default() };
    assert_eq!(daily_note_path(&config, ymd(2026, 4, 25)), "/vault/Daily Notes/2026-04-25 Sat.md");
    let abs = Config { daily_folder: "/journal/".to_string(), ..config.clone() };
    assert_eq!(daily_note_path(&abs, ymd(2026, 4, 27)), "/journal/2026-04-27 Mon.md");
}

#[test]
fn config_paths_resolve_against_the_vault() {
    let config = Config {
        vault_path: "/v".to_string(),
        ledger_path: "/elsewhere/W.md".to_string(),
        ..Config::default()
    };
    assert_eq!(config.ledger_file(), "/elsewhere/W.md");
    assert_eq!(config.people_dir(), "/v/People");
    assert_eq!(config.projects_dir(), "/v/Projects");
    let legacy = Config { daily_folder: "Daily".to_string(), ..Config::default() }.upgrade_legacy();
    assert_eq!(legacy.daily_folder, "Daily Notes");
    let kept = Config { daily_folder: "Daily/Log".to_string(), ..Config::default() }.upgrade_legacy();
    assert_eq!(kept.daily_folder, "Daily/Log");
}

#[test]
fn vault_notes_are_markdown_outside_obsidian() {
    assert!(is_vault_note("/v/notes/a.md"));
    assert!(!is_vault_note("/v/.obsidian/a.md"));
    assert!(!is_vault_note("/v/a.txt"));
    assert!(!is_vault_note("/v/.md"));
}

// ---------------------------------------------------------------------------
// Plans, ledgers, projects, reminders
// ---------------------------------------------------------------------------

#[test]
fn plan_buckets_hold_open_tasks_only() {
    let today = ymd(2026, 4, 25);
    let tasks = vec![
        task("a.md", 1, "- [ ] Late 📅 2026-04-24 🆔 a1"),
        task("a.md", 2, "- [x] Done late 📅 2026-04-24"),
        task("Daily Notes/2026-04-25 Sat.md", 3, "- [ ] Captured"),
        task("Daily Notes/2026-04-25 Sat.md", 4, "- [ ] Chase #waiting"),
        task("b.md", 1, "- [ ] Soon ⏳ 2026-04-25 #project/x"),
    ];
    let plan = build_plan(&tasks, today);
    assert_eq!(plan.overdue.len(), 1);
    assert_eq!(plan.inbox.len(), 1);
    assert_eq!(plan.inbox[0].text, "Captured");
    assert_eq!(plan.waiting.len(), 1);
    assert_eq!(plan.scheduled_today.len(), 1);
    assert_eq!(plan.projects.len(), 1);
    assert_eq!(plan.total(), 5);
    assert_eq!(
        render_summary(&plan),
        "Overdue: 1\nDue today: 0\nScheduled today: 1\nWaiting: 1\nProjects: 1\nInbox: 1\nTotal: 5"
    );
}

#[test]
fn plan_renders_every_section() {
    let today = ymd(2026, 4, 25);
    let tasks = vec![task("a.md", 1, "- [ ] Late 📅 2026-04-24 🆔 a1"), task("c.md", 2, "- [ ] Build #project/mpa")];
    let plan = build_plan(&tasks, today);
    assert_eq!(
        render_plan(&plan, today),
        "## Focus Plan - 2026-04-25\n\n### Overdue\n- [ ] Late 📅 2026-04-24 🆔 a1 <!-- 🆔 a1 -->\n\n### Due Today\n- None\n\n### Scheduled Today\n- None\n\n### Waiting\n- None\n\n### Projects\n\n#### mpa\n- [ ] Build #project/mpa <!-- c.md:2 -->\n\n### Inbox\n- None"
    );
}

#[test]
fn ledger_counts_what_review_counts() {
    let today = ymd(2026, 4, 25);
    let tasks = vec![
        task("a.md", 1, "- [ ] Waiting on Alice: feedback #waiting"),
        task("a.md", 2, "- [ ] Waiting on Alice: sign-off #waiting"),
        task("b.md", 1, "- [ ] Ask #waiting/bob"),
        task("b.md", 2, "- [ ] Nobody named #waiting"),
        task("b.md", 3, "- [x] Closed #waiting"),
    ];
    let ledger = build_ledger(&tasks);
    let review = review_counts(&tasks, today);
    assert_eq!(ledger.count(), 4);
    assert_eq!(review.waiting, 4);
    let names: Vec<&str> = ledger.groups.iter().map(|g| g.name.as_str()).collect();
    assert_eq!(names, vec!["Alice", "Unassigned", "bob"]);
    assert_eq!(ledger.groups[find_group(&ledger.groups, "Alice").unwrap()].tasks.len(), 2);
}

#[test]
fn ledger_renders_people_or_nothing() {
    let today = ymd(2026, 4, 25);
    let tasks = vec![task("a.md", 1, "- [ ] Waiting on Alice: feedback #waiting")];
    assert_eq!(
        render_ledger(&build_ledger(&tasks), today),
        "## Waiting Ledger - 2026-04-25\n\n### Alice\n- [ ] Waiting on Alice: feedback #waiting <!-- a.md:1 -->"
    );
    assert_eq!(
        render_ledger(&build_ledger(&vec![]), today),
        "## Waiting Ledger - 2026-04-25\n\nNo waiting-on items."
    );
}

#[test]
fn review_counts_each_kind() {
    let today = ymd(2026, 4, 25);
    let tasks = vec![
        task("a.md", 1, "- [x] A ✅ 2026-04-25"),
        task("a.md", 2, "- [x] B ✅ 2026-04-24"),
        task("a.md", 3, "- [ ] C 📅 2026-04-25"),
        task("a.md", 4, "- [ ] D 📅 2026-04-26"),
        task("a.md", 5, "- [ ] E 📅 2026-01-01 #waiting"),
    ];
    let r = review_counts(&tasks, today);
    assert_eq!(r.completed_today, 1);
    assert_eq!(r.due_remaining, 2);
    assert_eq!(r.waiting, 1);
}

#[test]
fn reminders_follow_their_precedence() {
    let today = ymd(2026, 4, 25);
    let tasks = vec![
        task("a.md", 1, "- [ ] Late 📅 2026-04-24 ⏳ 2026-04-25"),
        task("a.md", 2, "- [ ] Today 📅 2026-04-25"),
        task("a.md", 3, "- [ ] Sched ⏳ 2026-04-25"),
        task("a.md", 4, "- [ ] Follow #waiting 📅 2026-04-25"),
        task("a.md", 5, "- [ ] Later #waiting 📅 2026-04-26"),
        task("a.md", 6, "- [x] Done 📅 2026-04-20"),
    ];
    let cs = candidates(&tasks, today);
    let got: Vec<(&str, &str)> = cs.iter().map(|c| (c.title.as_str(), c.body.as_str())).collect();
    assert_eq!(
        got,
        vec![
            ("Overdue task", "Late 📅 2026-04-24 ⏳ 2026-04-25"),
            ("Task due today", "Today 📅 2026-04-25"),
            ("Task scheduled today", "Sched ⏳ 2026-04-25"),
            ("Task due today", "Follow #waiting 📅 2026-04-25"),
        ]
    );
}

#[test]
fn launch_agent_runs_notify() {
    let plist = launch_agent_plist("/bin/focus", "/cfg/config.toml");
    assert!(plist.starts_with("<?xml version=\"1.0\" encoding=\"UTF-8\"?>\n"));
    assert!(plist.contains("    <string>/bin/focus</string>\n    <string>notify</string>\n    <string>run</string>\n"));
    assert!(plist.contains("<key>FOCUS_CONFIG</key>\n    <string>/cfg/config.toml</string>"));
    assert!(plist.ends_with("<integer>1800</integer>\n</dict>\n</plist>\n"));
}

#[test]
fn projects_summarise_and_render() {
    let today = ymd(2026, 4, 25);
    let tasks = vec![
        task("a.md", 1, "- [ ] Late #project/client 📅 2026-04-24"),
        task("a.md", 2, "- [ ] Soon #project/client 📅 2026-05-02"),
        task("a.md", 3, "- [ ] Far #project/client 📅 2026-05-03"),
        task("b.md", 1, "- [ ] Waiting on Amy: reply #waiting #project/client-work"),
        task("b.md", 2, "- [x] Done #project/client"),
    ];
    let ss = summarize(&tasks, today).unwrap();
    assert_eq!(ss.len(), 2);
    let c = &ss[find_project(&ss, "client").unwrap()];
    assert_eq!(c.open.len(), 3);
    assert_eq!(c.overdue.len(), 1);
    assert_eq!(c.due_soon.len(), 1);
    let w = &ss[find_project(&ss, "Client-Work").unwrap()];
    assert_eq!(w.name, "client work");
    assert_eq!(w.waiting.len(), 1);
    assert!(find_project(&ss, "nope").is_none());
    assert_eq!(
        render_projects(&ss),
        "client: open 3, overdue 1, due soon 1, waiting 0\nclient work: open 1, overdue 0, due soon 0, waiting 1"
    );
    assert_eq!(
        render_project(w),
        "client work\nOpen: 1\nOverdue: 0\nDue soon: 0\nWaiting: 1\n\nTasks\n- Waiting on Amy: reply #waiting #project/client-work (b.md:1)"
    );
    assert_eq!(render_projects(&vec![]), "No active projects.");
}

// ---------------------------------------------------------------------------
// The command center
// ---------------------------------------------------------------------------

#[test]
fn tab_and_back_tab_undo_each_other() {
    let all = Section::all();
    for s in all.iter() {
        let mut st = TodayState { section: *s, selected: 2 };
        st.next_section();
        st.previous_section();
        assert_eq!(st.section, *s);
        assert_eq!(st.selected, 0);
        let mut cyc = TodayState { section: *s, selected: 0 };
        for _ in 0..6 {
            cyc.next_section();
        }
        assert_eq!(cyc.section, *s);
    }
    assert_eq!(Section::Projects.title(), "Projects");
}

#[test]
fn selection_stays_in_range() {
    let mut st = TodayState::default();
    st.move_up();
    assert_eq!(st.selected, 0);
    st.move_down(0);
    assert_eq!(st.selected, 0);
    st.selected = 9;
    st.move_down(3);
    assert_eq!(st.selected, 2);
    st.clamp_selection(2);
    assert_eq!(st.selected, 1);
    st.clamp_selection(0);
    assert_eq!(st.selected, 0);
}

#[test]
fn keys_map_to_actions() {
    let today = ymd(2026, 4, 25);
    let tasks = vec![
        task("Daily Notes/2026-04-25 Sat.md", 1, "- [ ] First 🆔 i1"),
        task("Daily Notes/2026-04-25 Sat.md", 2, "- [ ] No id"),
    ];
    let plan = build_plan(&tasks, today);
    assert_eq!(tasks_for_section(&plan, Section::Inbox).len(), 2);
    let mut st = TodayState::default();
    assert_eq!(handle_key(&mut st, Key::Char('q'), &plan, today), Action::Quit);
    assert_eq!(handle_key(&mut st, Key::Char('r'), &plan, today), Action::Refresh);
    assert_eq!(
        handle_key(&mut st, Key::Char('d'), &plan, today),
        Action::Edit("i1".to_string(), LineEdit::Complete(today))
    );
    assert_eq!(
        handle_key(&mut st, Key::Char('s'), &plan, today),
        Action::Edit("i1".to_string(), LineEdit::Schedule(today))
    );
    assert_eq!(
        handle_key(&mut st, Key::Char('f'), &plan, today),
        Action::Edit("i1".to_string(), LineEdit::Defer(ymd(2026, 4, 26)))
    );
    assert_eq!(handle_key(&mut st, Key::Down, &plan, today), Action::Stay);
    assert_eq!(st.selected, 1);
    assert_eq!(handle_key(&mut st, Key::Char('d'), &plan, today), Action::Stay);
    assert_eq!(handle_key(&mut st, Key::Down, &plan, today), Action::Stay);
    assert_eq!(st.selected, 1);
    assert_eq!(handle_key(&mut st, Key::Tab, &plan, today), Action::Stay);
    assert_eq!(st.section, Section::Today);
    assert_eq!(handle_key(&mut st, Key::Char('d'), &plan, today), Action::Stay);
    assert_eq!(handle_key(&mut st, Key::BackTab, &plan, today), Action::Stay);
    assert_eq!(st.section, Section::Inbox);
    assert_eq!(handle_key(&mut st, Key::Other, &plan, today), Action::Stay);
    let last = ymd(262142, 12, 31);
    let late_plan = build_plan(&vec![task("+262142-12-31.md", 1, "- [ ] Z 🆔 z")], last);
    let mut st2 = TodayState::default();
    assert_eq!(handle_key(&mut st2, Key::Char('f'), &late_plan, last), Action::DateOutOfRange);
}

// ---------------------------------------------------------------------------
// The core workflow on note text
// ---------------------------------------------------------------------------

#[test]
fn core_workflow_on_note_text() {
    let today = ymd(2026, 4, 25);
    let line = build_task_line_with_id(
        "Ask Alice for the report",
        Some(ymd(2026, 4, 25)),
        None,
        None,
        None,
        Some("Alice"),
        None,
        true,
        Some("f42"),
    );
    let note = section_appended("", "inbox", "Inbox", &line);
    let tasks = scan_note("Daily Notes/2026-04-25 Sat.md", &note);
    assert_eq!(tasks.len(), 1);
    assert_eq!(tasks[0].text, "Waiting on Alice: Ask Alice for the report 📅 2026-04-25 #waiting 🆔 f42");
    let plan = build_plan(&tasks, today);
    let note = section_replaced(&note, "plan", &render_plan(&plan, today));
    assert!(note.contains("<!-- focus:plan:start -->"));
    assert!(note.contains("Waiting on Alice: Ask Alice for the report"));
    // The plan copy is not scanned again.
    assert_eq!(scan_note("Daily Notes/2026-04-25 Sat.md", &note).len(), 1);
    let ledger = build_ledger(&tasks);
    assert!(render_ledger(&ledger, today).contains("### Alice"));
    let i = find_task_by_id(&tasks, "f42").unwrap();
    let done = complete_in_text(&note, tasks[i].line_number, today).unwrap();
    assert!(done.contains("- [x] Waiting on Alice: Ask Alice for the report"));
    assert_eq!(done.lines().count(), note.lines().count());
}

#[test]
fn date_arguments_parse_only_real_dates() {
    assert_eq!(parse_date("2026-04-05"), Some(ymd(2026, 4, 5)));
    assert_eq!(parse_date("2026-04-31"), None);
    assert_eq!(parse_date("soon"), None);
    assert_eq!(parse_date("2024-02-29"), Some(ymd(2024, 2, 29)));
}

#[test]
fn a_second_backfill_adds_nothing() {
    let raw = "- [ ] A\n- [ ] B 🆔 keep\n- [/] C\ntext\n";
    let ids = vec!["i1".to_string(), "i2".to_string()];
    let (once, n) = backfill_note_with(raw, &ids);
    assert_eq!(n, 2);
    assert_eq!(count_missing_ids(&once), 0);
    let more = vec!["j1".to_string()];
    assert_eq!(backfill_note_with(&once, &more), (once.clone(), 0));
    assert_eq!(backfill_note(&once), (once.clone(), 0));
}

#[test]
fn replacing_twice_appends_a_missing_section_once() {
    let raw = "notes";
    let once = section_replaced(raw, "plan", "one");
    let twice = section_replaced(&once, "plan", "two");
    assert_eq!(twice, section_replaced(raw, "plan", "two"));
    assert_eq!(twice, "notes\n\n<!-- focus:plan:start -->\ntwo\n<!-- focus:plan:end -->\n");
    assert_eq!(section_replaced(&once, "plan", "one"), once);
}

#[test]
fn capture_metadata_reads_back() {
    let line = build_task_line_with_id(
        "call: the bank",
        None,
        None,
        None,
        Some(Priority::Lowest),
        Some("Bob"),
        Some("Client Work"),
        true,
        Some("k9"),
    );
    let t = parse_line_only(&line).unwrap();
    assert!(t.is_waiting());
    assert_eq!(t.priority, Some(Priority::Lowest));
    assert_eq!(t.project.as_deref(), Some("client work"));
    assert_eq!(t.person.as_deref(), Some("Bob"));
    assert_eq!(t.tags, vec!["#waiting".to_string(), "#project/client-work".to_string()]);
    let plain = build_task_line_with_id(
        "file taxes",
        None,
        None,
        None,
        None,
        Some("Bob"),
        None,
        false,
        Some("k8"),
    );
    let u = parse_line_only(&plain).unwrap();
    assert!(!u.is_waiting());
    assert_eq!(u.priority, None);
    assert_eq!(u.project, None);
    assert_eq!(u.person, None);
    assert!(u.tags.is_empty());
}

#[test]
fn daily_note_weekdays_follow_the_calendar() {
    let config = Config { vault_path: "/v".to_string(), ..Config::default() };
    assert_eq!(daily_note_path(&config, ymd(2000, 1, 1)), "/v/Daily Notes/2000-01-01 Sat.md");
    assert_eq!(daily_note_path(&config, ymd(2024, 2, 29)), "/v/Daily Notes/2024-02-29 Thu.md");
    assert_eq!(daily_note_path(&config, ymd(1970, 1, 1)), "/v/Daily Notes/1970-01-01 Thu.md");
    assert_eq!(daily_note_path(&config, ymd(1600, 3, 1)), "/v/Daily Notes/1600-03-01 Wed.md");
    assert_eq!(daily_note_path(&config, ymd(2026, 4, 26)), "/v/Daily Notes/2026-04-26 Sun.md");
    assert_eq!(daily_note_path(&config, ymd(0, 1, 1)), "/v/Daily Notes/0000-01-01 Sat.md");
    assert_eq!(daily_note_path(&config, ymd(-1, 12, 31)), "/v/Daily Notes/-0001-12-31 Fri.md");
}

#[test]
fn a_second_backfill_of_a_crlf_note_adds_nothing() {
    let raw = "- [ ] A\r\n- [x] B\r\ntext\r\n";
    let ids = vec!["i1".to_string()];
    let (once, n) = backfill_note_with(raw, &ids);
    assert_eq!(n, 1);
    assert_eq!(once, "- [ ] A 🆔 i1\n- [x] B\ntext\n");
    assert_eq!(count_missing_ids(&once), 0);
    assert_eq!(backfill_note_with(&once, &ids), (once.clone(), 0));
}

#[test]
fn capture_metadata_reads_back_with_unusual_ids() {
    for id in ["a:b", "x#y", "#urgent"] {
        let line = build_task_line_with_id(
            "call: the bank",
            None,
            None,
            None,
            Some(Priority::High),
            None,
            Some("Home"),
            false,
            Some(id),
        );
        let t = parse_line_only(&line).unwrap();
        assert_eq!(t.id.as_deref(), Some(id));
        assert!(!t.is_waiting());
        assert_eq!(t.priority, Some(Priority::High));
        assert_eq!(t.project.as_deref(), Some("home"));
        assert_eq!(t.person, None);
        let mut tags = vec!["#project/home".to_string()];
        if id.starts_with('#') {
            tags.push(id.to_string());
        }
        assert_eq!(t.tags, tags);
    }
    // A `:` in the ID would end a `waiting on` opening of the text.
    let line = build_task_line_with_id(
        "waiting on Bob",
        None,
        None,
        None,
        None,
        None,
        None,
        false,
        Some("a:b"),
    );
    let t = parse_line_only(&line).unwrap();
    assert_eq!(t.person.as_deref(), Some("Bob 🆔 a"));
}
