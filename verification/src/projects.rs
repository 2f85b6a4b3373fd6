//! Project summaries from `#project/<name>` tags.
use vstd::prelude::*;
use crate::date::{add_days, days_after, decimal, Date};
use crate::groups::{group_add, group_views, is_grouping, TaskGroup};
use crate::planner::{bucket, project_entries, push_count, trim_end_chars, Bucket};
use crate::task::{lowercase, task_views, to_lowercase, Task, TaskView};
use crate::text::{chars_of, extend_str, replace_char, replace_char_exec, string_of, trim_end};

verus! {

/// One project's open tasks, and those among them that are overdue, due
/// soon (from today through the horizon) or waiting.
#[derive(Debug, Clone)]
pub struct ProjectSummary {
    pub name: String,
    pub open: Vec<Task>,
    pub overdue: Vec<Task>,
    pub due_soon: Vec<Task>,
    pub waiting: Vec<Task>,
}

/// Due on or after `today` and on or before `horizon`.
pub open spec fn is_due_soon(t: TaskView, today: Date, horizon: Date) -> bool {
    t.due matches Some(d) && !d.before(today) && !horizon.before(d)
}

pub open spec fn due_soon(ts: Seq<TaskView>, today: Date, horizon: Date) -> Seq<TaskView>
    decreases ts.len(),
{
    if ts.len() == 0 {
        seq![]
    } else {
        due_soon(ts.drop_last(), today, horizon) + if is_due_soon(ts.last(), today, horizon) {
            seq![ts.last()]
        } else {
            seq![]
        }
    }
}

pub open spec fn summary_groups(ss: Seq<ProjectSummary>) -> Seq<(Seq<char>, Seq<TaskView>)> {
    ss.map_values(|s: ProjectSummary| (s.name@, task_views(s.open@)))
}

/// The summaries are those of the tasks' projects: one per project with
/// open tasks, in name order, each with its open tasks in order and the
/// overdue, due-soon and waiting ones among them.
pub open spec fn is_summary_for(ss: Seq<ProjectSummary>, ts: Seq<TaskView>, today: Date, horizon: Date) -> bool {
    &&& is_grouping(summary_groups(ss), project_entries(ts))
    &&& forall|i: int| 0 <= i < ss.len() ==> {
        let o = task_views(#[trigger] ss[i].open@);
        &&& task_views(ss[i].overdue@) == bucket(o, Bucket::Overdue, today)
        &&& task_views(ss[i].due_soon@) == due_soon(o, today, horizon)
        &&& task_views(ss[i].waiting@) == bucket(o, Bucket::Waiting, today)
    }
}

fn push_dup(v: &mut Vec<Task>, t: &Task)
    ensures
        task_views(final(v)@) == task_views(old(v)@).push(t@),
{
    let d = t.duplicate();
    v.push(d);
    assert(task_views(v@) =~= task_views(old(v)@).push(t@));
}

fn summary_of(g: &TaskGroup, today: Date, horizon: Date) -> (s: ProjectSummary)
    ensures
        s.name@ == g.name@,
        task_views(s.open@) == task_views(g.tasks@),
        task_views(s.overdue@) == bucket(task_views(g.tasks@), Bucket::Overdue, today),
        task_views(s.due_soon@) == due_soon(task_views(g.tasks@), today, horizon),
        task_views(s.waiting@) == bucket(task_views(g.tasks@), Bucket::Waiting, today),
{
    let ghost ts = task_views(g.tasks@);
    let mut s = ProjectSummary {
        name: g.name.clone(),
        open: Vec::new(),
        overdue: Vec::new(),
        due_soon: Vec::new(),
        waiting: Vec::new(),
    };
    proof {
        assert(task_views(s.open@) =~= ts.take(0));
        assert(task_views(s.overdue@) =~= Seq::<TaskView>::empty());
        assert(task_views(s.due_soon@) =~= Seq::<TaskView>::empty());
        assert(task_views(s.waiting@) =~= Seq::<TaskView>::empty());
    }
    let mut i: usize = 0;
    while i < g.tasks.len()
        invariant
            i <= g.tasks.len(),
            ts == task_views(g.tasks@),
            s.name@ == g.name@,
            task_views(s.open@) == ts.take(i as int),
            task_views(s.overdue@) == bucket(ts.take(i as int), Bucket::Overdue, today),
            task_views(s.due_soon@) == due_soon(ts.take(i as int), today, horizon),
            task_views(s.waiting@) == bucket(ts.take(i as int), Bucket::Waiting, today),
        decreases g.tasks.len() - i,
    {
        let t = &g.tasks[i];
        let ghost cur = ts.take(i + 1);
        proof {
            assert(cur.drop_last() =~= ts.take(i as int));
            assert(cur.last() == t@);
        }
        push_dup(&mut s.open, t);
        let open = t.is_open();
        match t.due {
            Some(d) => {
                if open && d.is_before(&today) {
                    push_dup(&mut s.overdue, t);
                }
                if !d.is_before(&today) && !horizon.is_before(&d) {
                    push_dup(&mut s.due_soon, t);
                }
            },
            None => {},
        }
        if open && t.is_waiting() {
            push_dup(&mut s.waiting, t);
        }
        i += 1;
        proof {
            assert(task_views(s.open@) =~= cur);
            assert(task_views(s.overdue@) =~= bucket(cur, Bucket::Overdue, today));
            assert(task_views(s.due_soon@) =~= due_soon(cur, today, horizon));
            assert(task_views(s.waiting@) =~= bucket(cur, Bucket::Waiting, today));
        }
    }
    proof {
        assert(ts.take(g.tasks.len() as int) =~= ts);
    }
    s
}

/// Summaries of the projects, with due-soon meaning due from `today`
/// through `horizon`.
pub fn summarize_until(tasks: &Vec<Task>, today: Date, horizon: Date) -> (r: Vec<ProjectSummary>)
    ensures
        is_summary_for(r@, task_views(tasks@), today, horizon),
{
    let ghost ts = task_views(tasks@);
    let mut gs: Vec<TaskGroup> = Vec::new();
    proof {
        assert(group_views(gs@) =~= Seq::<(Seq<char>, Seq<TaskView>)>::empty());
        assert(ts.take(0) =~= Seq::<TaskView>::empty());
    }
    let mut i: usize = 0;
    while i < tasks.len()
        invariant
            i <= tasks.len(),
            ts == task_views(tasks@),
            is_grouping(group_views(gs@), project_entries(ts.take(i as int))),
        decreases tasks.len() - i,
    {
        let t = &tasks[i];
        let ghost pre = ts.take(i as int);
        let ghost cur = ts.take(i + 1);
        proof {
            assert(cur.drop_last() =~= pre);
            assert(cur.last() == t@);
        }
        if t.is_open() {
            match &t.project {
                Some(p) => {
                    let key = chars_of(p.as_str());
                    let d = t.duplicate();
                    group_add(&mut gs, &key, d, Ghost(project_entries(pre)));
                    proof {
                        assert(project_entries(cur) =~= project_entries(pre).push((key@, t@)));
                    }
                },
                None => {
                    proof {
                        assert(project_entries(cur) =~= project_entries(pre));
                    }
                },
            }
        } else {
            proof {
                assert(project_entries(cur) =~= project_entries(pre));
            }
        }
        i += 1;
    }
    proof {
        assert(ts.take(tasks.len() as int) =~= ts);
    }
    let mut r: Vec<ProjectSummary> = Vec::new();
    let mut k: usize = 0;
    while k < gs.len()
        invariant
            k <= gs.len(),
            r.len() == k,
            forall|m: int|
                0 <= m < k ==> (#[trigger] summary_groups(r@)[m]) == group_views(gs@)[m],
            forall|m: int|
                0 <= m < k ==> {
                    let o = task_views(#[trigger] r@[m].open@);
                    &&& task_views(r@[m].overdue@) == bucket(o, Bucket::Overdue, today)
                    &&& task_views(r@[m].due_soon@) == due_soon(o, today, horizon)
                    &&& task_views(r@[m].waiting@) == bucket(o, Bucket::Waiting, today)
                },
        decreases gs.len() - k,
    {
        let s = summary_of(&gs[k], today, horizon);
        let ghost old_r = r@;
        r.push(s);
        proof {
            assert(r@ =~= old_r.push(s));
            assert forall|m: int| 0 <= m < k + 1 implies (#[trigger] summary_groups(r@)[m])
                == group_views(gs@)[m] by {
                if m < k {
                    assert(r@[m] == old_r[m]);
                    assert(summary_groups(old_r)[m] == group_views(gs@)[m]);
                }
            }
            assert forall|m: int| 0 <= m < k + 1 implies {
                let o = task_views(#[trigger] r@[m].open@);
                &&& task_views(r@[m].overdue@) == bucket(o, Bucket::Overdue, today)
                &&& task_views(r@[m].due_soon@) == due_soon(o, today, horizon)
                &&& task_views(r@[m].waiting@) == bucket(o, Bucket::Waiting, today)
            } by {
                if m < k {
                    assert(r@[m] == old_r[m]);
                }
            }
        }
        k += 1;
    }
    proof {
        assert(summary_groups(r@) =~= group_views(gs@));
    }
    r
}

/// Summaries of the projects, with due-soon meaning due within seven days
/// from today; `None` only when today plus seven days is past the last date
/// that `NaiveDate` holds.
pub fn summarize(tasks: &Vec<Task>, today: Date) -> (r: Option<Vec<ProjectSummary>>)
    requires
        today.wf(),
    ensures
        match r {
            Some(ss) => days_after(today, 7).wf() && is_summary_for(
                ss@,
                task_views(tasks@),
                today,
                days_after(today, 7),
            ),
            None => !days_after(today, 7).wf(),
        },
{
    match add_days(today, 7) {
        Some(h) => Some(summarize_until(tasks, today, h)),
        None => None,
    }
}

/// The project whose name is the given name lower-cased with `-` read as a
/// space, else the one named exactly as given.
pub open spec fn project_lookup(ss: Seq<ProjectSummary>, name: Seq<char>) -> Option<int> {
    let normalized = replace_char(lowercase(name), '-', ' ');
    if exists|i: int| 0 <= i < ss.len() && #[trigger] ss[i].name@ == normalized {
        Some(choose|i: int| 0 <= i < ss.len() && #[trigger] ss[i].name@ == normalized)
    } else if exists|i: int| 0 <= i < ss.len() && #[trigger] ss[i].name@ == name {
        Some(choose|i: int| 0 <= i < ss.len() && #[trigger] ss[i].name@ == name)
    } else {
        None
    }
}

fn find_summary(ss: &Vec<ProjectSummary>, name: &Vec<char>) -> (r: Option<usize>)
    ensures
        match r {
            Some(i) => i < ss.len() && ss@[i as int].name@ == name@,
            None => forall|i: int| 0 <= i < ss.len() ==> #[trigger] ss@[i].name@ != name@,
        },
{
    let mut i: usize = 0;
    while i < ss.len()
        invariant
            i <= ss.len(),
            forall|m: int| 0 <= m < i ==> #[trigger] ss@[m].name@ != name@,
        decreases ss.len() - i,
    {
        if crate::task::chars_equal(&chars_of(ss[i].name.as_str()), name) {
            return Some(i);
        }
        i += 1;
    }
    None
}

/// Finds the project a user named: first by the normalized name (lower
/// case, `-` read as a space), then by the name as given.
pub fn find_project(ss: &Vec<ProjectSummary>, name: &str) -> (r: Option<usize>)
    ensures
        match r {
            Some(i) => i < ss.len() && (ss@[i as int].name@ == replace_char(
                lowercase(name@),
                '-',
                ' ',
            ) || (ss@[i as int].name@ == name@ && forall|k: int|
                0 <= k < ss.len() ==> #[trigger] ss@[k].name@ != replace_char(
                    lowercase(name@),
                    '-',
                    ' ',
                ))),
            None => forall|k: int|
                0 <= k < ss.len() ==> #[trigger] ss@[k].name@ != replace_char(
                    lowercase(name@),
                    '-',
                    ' ',
                ) && ss@[k].name@ != name@,
        },
        r is Some <==> project_lookup(ss@, name@) is Some,
{
    let lower = to_lowercase(name);
    let normalized = replace_char_exec(&chars_of(lower.as_str()), '-', ' ');
    match find_summary(ss, &normalized) {
        Some(i) => Some(i),
        None => {
            let r = find_summary(ss, &chars_of(name));
            proof {
                if let Some(i) = r {
                    assert(ss@[i as int].name@ == name@);
                }
            }
            r
        },
    }
}

// ---------------------------------------------------------------------------
// Rendering
// ---------------------------------------------------------------------------
pub open spec fn project_line(s: ProjectSummary) -> Seq<char> {
    s.name@ + ": open "@ + decimal(s.open@.len()) + ", overdue "@ + decimal(s.overdue@.len())
        + ", due soon "@ + decimal(s.due_soon@.len()) + ", waiting "@ + decimal(
        s.waiting@.len(),
    ) + "\n"@
}

pub open spec fn project_lines(ss: Seq<ProjectSummary>) -> Seq<char>
    decreases ss.len(),
{
    if ss.len() == 0 {
        seq![]
    } else {
        project_lines(ss.drop_last()) + project_line(ss.last())
    }
}

/// One line of counts per project, or `No active projects.`.
pub open spec fn render_projects_spec(ss: Seq<ProjectSummary>) -> Seq<char> {
    if ss.len() == 0 {
        "No active projects."@
    } else {
        trim_end(project_lines(ss))
    }
}

pub fn render_projects(ss: &Vec<ProjectSummary>) -> (r: String)
    ensures
        r@ == render_projects_spec(ss@),
{
    if ss.len() == 0 {
        return string_of(&chars_of("No active projects."));
    }
    let mut out: Vec<char> = Vec::new();
    let mut i: usize = 0;
    while i < ss.len()
        invariant
            i <= ss.len(),
            out@ == project_lines(ss@.take(i as int)),
        decreases ss.len() - i,
    {
        let s = &ss[i];
        extend_str(&mut out, s.name.as_str());
        push_count(&mut out, ": open ", s.open.len());
        push_count(&mut out, ", overdue ", s.overdue.len());
        push_count(&mut out, ", due soon ", s.due_soon.len());
        push_count(&mut out, ", waiting ", s.waiting.len());
        extend_str(&mut out, "\n");
        proof {
            let cur = ss@.take(i + 1);
            assert(cur.drop_last() =~= ss@.take(i as int));
            assert(cur.last() == *s);
            assert(out@ =~= project_lines(cur));
        }
        i += 1;
    }
    assert(ss@.take(ss.len() as int) =~= ss@);
    string_of(&trim_end_chars(&out))
}

pub open spec fn project_task_items(ts: Seq<TaskView>) -> Seq<char>
    decreases ts.len(),
{
    if ts.len() == 0 {
        seq![]
    } else {
        project_task_items(ts.drop_last()) + "- "@ + ts.last().text + " ("@
            + ts.last().source_ref() + ")\n"@
    }
}

/// The project's counts and its open tasks with their source references.
pub open spec fn render_project_spec(s: ProjectSummary) -> Seq<char> {
    trim_end(
        s.name@ + "\nOpen: "@ + decimal(s.open@.len()) + "\nOverdue: "@ + decimal(
            s.overdue@.len(),
        ) + "\nDue soon: "@ + decimal(s.due_soon@.len()) + "\nWaiting: "@ + decimal(
            s.waiting@.len(),
        ) + "\n"@ + "\nTasks\n"@ + project_task_items(task_views(s.open@)),
    )
}

pub fn render_project(s: &ProjectSummary) -> (r: String)
    ensures
        r@ == render_project_spec(*s),
{
    let mut out = chars_of(s.name.as_str());
    push_count(&mut out, "\nOpen: ", s.open.len());
    push_count(&mut out, "\nOverdue: ", s.overdue.len());
    push_count(&mut out, "\nDue soon: ", s.due_soon.len());
    push_count(&mut out, "\nWaiting: ", s.waiting.len());
    extend_str(&mut out, "\n");
    extend_str(&mut out, "\nTasks\n");
    let ghost base = out@;
    let ghost ts = task_views(s.open@);
    let mut i: usize = 0;
    while i < s.open.len()
        invariant
            i <= s.open.len(),
            ts == task_views(s.open@),
            out@ == base + project_task_items(ts.take(i as int)),
        decreases s.open.len() - i,
    {
        let t = &s.open[i];
        extend_str(&mut out, "- ");
        extend_str(&mut out, t.text.as_str());
        extend_str(&mut out, " (");
        let r = t.source_ref();
        extend_str(&mut out, r.as_str());
        extend_str(&mut out, ")\n");
        proof {
            let cur = ts.take(i + 1);
            assert(cur.drop_last() =~= ts.take(i as int));
            assert(cur.last() == t@);
            assert(out@ =~= base + project_task_items(cur));
        }
        i += 1;
    }
    proof {
        assert(ts.take(s.open.len() as int) =~= ts);
        assert(out@ =~= s.name@ + "\nOpen: "@ + decimal(s.open@.len()) + "\nOverdue: "@ + decimal(
            s.overdue@.len(),
        ) + "\nDue soon: "@ + decimal(s.due_soon@.len()) + "\nWaiting: "@ + decimal(
            s.waiting@.len(),
        ) + "\n"@ + "\nTasks\n"@ + project_task_items(ts));
    }
    string_of(&trim_end_chars(&out))
}

} // verus!
