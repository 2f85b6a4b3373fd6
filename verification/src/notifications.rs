//! Which tasks deserve a reminder, and the LaunchAgent that runs the reminders.
use vstd::prelude::*;
use crate::date::Date;
use crate::task::{task_views, Task, TaskView};
use crate::text::{chars_of, extend_str, string_of};

verus! {

/// A reminder to show.
#[derive(Debug, Clone)]
pub struct NotificationCandidate {
    pub title: String,
    pub body: String,
}

/// The reminder title for an open task on `today`, if it deserves one:
/// overdue, due today, scheduled today, or a waiting task due by today, in
/// that order of precedence.
pub open spec fn reminder_title(t: TaskView, today: Date) -> Option<Seq<char>> {
    if !t.is_open() {
        None
    } else if t.due matches Some(d) && d.before(today) {
        Some("Overdue task"@)
    } else if t.due == Some(today) {
        Some("Task due today"@)
    } else if t.scheduled == Some(today) {
        Some("Task scheduled today"@)
    } else if t.is_waiting() && (t.due matches Some(d) && !today.before(d)) {
        Some("Waiting followup"@)
    } else {
        None
    }
}

/// The reminders for the tasks, in task order: the title and the task text.
pub open spec fn candidates_spec(ts: Seq<TaskView>, today: Date) -> Seq<(Seq<char>, Seq<char>)>
    decreases ts.len(),
{
    if ts.len() == 0 {
        seq![]
    } else {
        candidates_spec(ts.drop_last(), today) + match reminder_title(ts.last(), today) {
            Some(title) => seq![(title, ts.last().text)],
            None => seq![],
        }
    }
}

pub open spec fn candidate_views(cs: Seq<NotificationCandidate>) -> Seq<(Seq<char>, Seq<char>)> {
    cs.map_values(|c: NotificationCandidate| (c.title@, c.body@))
}

fn reminder_title_exec(t: &Task, today: Date) -> (r: Option<&'static str>)
    ensures
        match r {
            Some(s) => reminder_title(t@, today) == Some(s@),
            None => reminder_title(t@, today) is None,
        },
{
    if !t.is_open() {
        return None;
    }
    let overdue = match t.due {
        Some(d) => d.is_before(&today),
        None => false,
    };
    if overdue {
        Some("Overdue task")
    } else if t.due == Some(today) {
        Some("Task due today")
    } else if t.scheduled == Some(today) {
        Some("Task scheduled today")
    } else {
        let due_by_today = match t.due {
            Some(d) => !today.is_before(&d),
            None => false,
        };
        if t.is_waiting() && due_by_today {
            Some("Waiting followup")
        } else {
            None
        }
    }
}

/// The reminders that the tasks call for on `today`.
pub fn candidates(tasks: &Vec<Task>, today: Date) -> (r: Vec<NotificationCandidate>)
    ensures
        candidate_views(r@) == candidates_spec(task_views(tasks@), today),
{
    let ghost ts = task_views(tasks@);
    let mut out: Vec<NotificationCandidate> = Vec::new();
    let mut i: usize = 0;
    assert(candidate_views(out@) =~= candidates_spec(ts.take(0), today));
    while i < tasks.len()
        invariant
            i <= tasks.len(),
            ts == task_views(tasks@),
            candidate_views(out@) == candidates_spec(ts.take(i as int), today),
        decreases tasks.len() - i,
    {
        let t = &tasks[i];
        let ghost cur = ts.take(i + 1);
        proof {
            assert(cur.drop_last() =~= ts.take(i as int));
            assert(cur.last() == t@);
        }
        match reminder_title_exec(t, today) {
            Some(title) => {
                let c = NotificationCandidate {
                    title: string_of(&chars_of(title)),
                    body: t.text.clone(),
                };
                let ghost old_out = out@;
                out.push(c);
                proof {
                    assert(out@ =~= old_out.push(c));
                    assert(candidate_views(out@) =~= candidate_views(old_out).push((c.title@, c.body@)));
                }
            },
            None => {},
        }
        i += 1;
        proof {
            assert(candidate_views(out@) =~= candidates_spec(cur, today));
        }
    }
    proof {
        assert(ts.take(tasks.len() as int) =~= ts);
    }
    out
}

/// The LaunchAgent property list that runs `<binary> notify run` every
/// thirty minutes with `FOCUS_CONFIG` set to the config path.
pub open spec fn launch_agent_plist_spec(binary: Seq<char>, config_path: Seq<char>) -> Seq<char> {
    "<?xml version=\"1.0\" encoding=\"UTF-8\"?>\n<!DOCTYPE plist PUBLIC \"-//Apple//DTD PLIST 1.0//EN\" \"http://www.apple.com/DTDs/PropertyList-1.0.dtd\">\n<plist version=\"1.0\">\n<dict>\n  <key>Label</key>\n  <string>com.focus.notify</string>\n  <key>ProgramArguments</key>\n  <array>\n    <string>"@
        + binary
        + "</string>\n    <string>notify</string>\n    <string>run</string>\n  </array>\n  <key>EnvironmentVariables</key>\n  <dict>\n    <key>FOCUS_CONFIG</key>\n    <string>"@
        + config_path
        + "</string>\n  </dict>\n  <key>StartInterval</key>\n  <integer>1800</integer>\n</dict>\n</plist>\n"@
}

pub fn launch_agent_plist(binary: &str, config_path: &str) -> (r: String)
    ensures
        r@ == launch_agent_plist_spec(binary@, config_path@),
{
    let mut v = chars_of(
        "<?xml version=\"1.0\" encoding=\"UTF-8\"?>\n<!DOCTYPE plist PUBLIC \"-//Apple//DTD PLIST 1.0//EN\" \"http://www.apple.com/DTDs/PropertyList-1.0.dtd\">\n<plist version=\"1.0\">\n<dict>\n  <key>Label</key>\n  <string>com.focus.notify</string>\n  <key>ProgramArguments</key>\n  <array>\n    <string>",
    );
    extend_str(&mut v, binary);
    extend_str(
        &mut v,
        "</string>\n    <string>notify</string>\n    <string>run</string>\n  </array>\n  <key>EnvironmentVariables</key>\n  <dict>\n    <key>FOCUS_CONFIG</key>\n    <string>",
    );
    extend_str(&mut v, config_path);
    extend_str(
        &mut v,
        "</string>\n  </dict>\n  <key>StartInterval</key>\n  <integer>1800</integer>\n</dict>\n</plist>\n",
    );
    string_of(&v)
}

} // verus!
