//! The daily plan: open tasks sorted into overdue, due-today,
//! scheduled-today, waiting, project and inbox buckets, and its Markdown.
use vstd::prelude::*;
use crate::date::{decimal, decimal_chars, Date};
use crate::groups::{group_add, group_views, is_grouping, TaskGroup};
use crate::task::{task_views, Task, TaskView};
use crate::text::{
    chars_of, extend, extend_str, find_sub, find_sub_exec, string_of, trim_end, ws_run_start,
    slice,
};

verus! {

/// The daily plan. Every bucket holds open tasks in scan order; project
/// groups are in project-name order.
#[derive(Debug, Clone)]
pub struct Plan {
    pub overdue: Vec<Task>,
    pub due_today: Vec<Task>,
    pub scheduled_today: Vec<Task>,
    pub inbox: Vec<Task>,
    pub waiting: Vec<Task>,
    pub projects: Vec<TaskGroup>,
}

/// The planning buckets.
pub enum Bucket {
    Overdue,
    DueToday,
    ScheduledToday,
    Waiting,
    Inbox,
}

/// No tag is exactly `#waiting`.
pub open spec fn no_plain_waiting_tag(t: TaskView) -> bool {
    forall|i: int| 0 <= i < t.tags.len() ==> #[trigger] t.tags[i] != "#waiting"@
}

/// Whether an open task belongs in a bucket on `today`.
pub open spec fn in_bucket(t: TaskView, b: Bucket, today: Date) -> bool {
    t.is_open() && match b {
        Bucket::Overdue => t.due matches Some(d) && d.before(today),
        Bucket::DueToday => t.due == Some(today),
        Bucket::ScheduledToday => t.scheduled == Some(today),
        Bucket::Waiting => t.is_waiting(),
        Bucket::Inbox => find_sub(t.path, today.text()) is Some && no_plain_waiting_tag(t),
    }
}

/// The tasks of a bucket, in order.
pub open spec fn bucket(ts: Seq<TaskView>, b: Bucket, today: Date) -> Seq<TaskView>
    decreases ts.len(),
{
    if ts.len() == 0 {
        seq![]
    } else {
        bucket(ts.drop_last(), b, today) + if in_bucket(ts.last(), b, today) {
            seq![ts.last()]
        } else {
            seq![]
        }
    }
}

/// Open tasks filed under their project.
pub open spec fn project_entries(ts: Seq<TaskView>) -> Seq<(Seq<char>, TaskView)>
    decreases ts.len(),
{
    if ts.len() == 0 {
        seq![]
    } else {
        project_entries(ts.drop_last()) + if ts.last().is_open() && ts.last().project is Some {
            seq![(ts.last().project.unwrap(), ts.last())]
        } else {
            seq![]
        }
    }
}

/// The plan is the one for these tasks on `today`.
pub open spec fn is_plan_for(p: Plan, ts: Seq<TaskView>, today: Date) -> bool {
    &&& task_views(p.overdue@) == bucket(ts, Bucket::Overdue, today)
    &&& task_views(p.due_today@) == bucket(ts, Bucket::DueToday, today)
    &&& task_views(p.scheduled_today@) == bucket(ts, Bucket::ScheduledToday, today)
    &&& task_views(p.waiting@) == bucket(ts, Bucket::Waiting, today)
    &&& task_views(p.inbox@) == bucket(ts, Bucket::Inbox, today)
    &&& is_grouping(group_views(p.projects@), project_entries(ts))
}

/// Number of tasks in the groups.
pub open spec fn group_task_count(gs: Seq<TaskGroup>) -> nat
    decreases gs.len(),
{
    if gs.len() == 0 {
        0
    } else {
        group_task_count(gs.drop_last()) + gs.last().tasks@.len()
    }
}

impl Plan {
    pub open spec fn total_spec(self) -> nat {
        self.overdue@.len() + self.due_today@.len() + self.scheduled_today@.len()
            + self.inbox@.len() + self.waiting@.len() + group_task_count(self.projects@)
    }

    /// Number of task entries across all buckets.
    pub fn total(&self) -> (r: usize)
        requires
            self.total_spec() <= usize::MAX,
        ensures
            r == self.total_spec(),
    {
        let mut n: usize = self.overdue.len() + self.due_today.len() + self.scheduled_today.len()
            + self.inbox.len() + self.waiting.len();
        let mut i: usize = 0;
        while i < self.projects.len()
            invariant
                i <= self.projects.len(),
                self.total_spec() <= usize::MAX,
                n == self.overdue.len() + self.due_today.len() + self.scheduled_today.len()
                    + self.inbox.len() + self.waiting.len() + group_task_count(
                    self.projects@.take(i as int),
                ),
            decreases self.projects.len() - i,
        {
            proof {
                assert(self.projects@.take(i + 1).drop_last() =~= self.projects@.take(i as int));
                lemma_group_task_count_prefix(self.projects@, i + 1);
            }
            n = n + self.projects[i].tasks.len();
            i += 1;
        }
        assert(self.projects@.take(self.projects.len() as int) =~= self.projects@);
        n
    }
}

proof fn lemma_group_task_count_prefix(gs: Seq<TaskGroup>, k: int)
    requires
        0 <= k <= gs.len(),
    ensures
        group_task_count(gs.take(k)) <= group_task_count(gs),
    decreases gs.len() - k,
{
    if k < gs.len() {
        assert(gs.take(k) =~= gs.drop_last().take(k));
        lemma_group_task_count_prefix(gs.drop_last(), k);
    } else {
        assert(gs.take(k) =~= gs);
    }
}

fn is_in_inbox(t: &Task, today_text: &Vec<char>, Ghost(today): Ghost<Date>) -> (r: bool)
    requires
        today_text@ == today.text(),
    ensures
        r == (find_sub(t@.path, today.text()) is Some && no_plain_waiting_tag(t@)),
{
    let p = chars_of(t.path.as_str());
    if find_sub_exec(&p, today_text, 0).is_none() {
        return false;
    }
    let mut i: usize = 0;
    while i < t.tags.len()
        invariant
            i <= t.tags.len(),
            forall|k: int| 0 <= k < i ==> #[trigger] t@.tags[k] != "#waiting"@,
        decreases t.tags.len() - i,
    {
        proof {
            assert(t@.tags[i as int] == t.tags@[i as int]@);
        }
        if crate::task::str_is(t.tags[i].as_str(), "#waiting") {
            return false;
        }
        i += 1;
    }
    true
}

fn push_task(v: &mut Vec<Task>, t: &Task)
    ensures
        task_views(final(v)@) == task_views(old(v)@).push(t@),
{
    let d = t.duplicate();
    v.push(d);
    assert(task_views(v@) =~= task_views(old(v)@).push(t@));
}

/// Sorts the open tasks into the plan's buckets and project groups.
pub fn build_plan(tasks: &Vec<Task>, today: Date) -> (plan: Plan)
    requires
        today.wf(),
    ensures
        is_plan_for(plan, task_views(tasks@), today),
{
    let ghost ts = task_views(tasks@);
    let today_text = today.text_chars();
    let mut plan = Plan {
        overdue: Vec::new(),
        due_today: Vec::new(),
        scheduled_today: Vec::new(),
        inbox: Vec::new(),
        waiting: Vec::new(),
        projects: Vec::new(),
    };
    proof {
        assert(task_views(plan.overdue@) =~= Seq::<TaskView>::empty());
        assert(task_views(plan.due_today@) =~= Seq::<TaskView>::empty());
        assert(task_views(plan.scheduled_today@) =~= Seq::<TaskView>::empty());
        assert(task_views(plan.waiting@) =~= Seq::<TaskView>::empty());
        assert(task_views(plan.inbox@) =~= Seq::<TaskView>::empty());
        assert(group_views(plan.projects@) =~= Seq::<(Seq<char>, Seq<TaskView>)>::empty());
        assert(ts.take(0) =~= Seq::<TaskView>::empty());
    }
    let mut i: usize = 0;
    while i < tasks.len()
        invariant
            i <= tasks.len(),
            ts == task_views(tasks@),
            today.wf(),
            today_text@ == today.text(),
            is_plan_for(plan, ts.take(i as int), today),
        decreases tasks.len() - i,
    {
        let t = &tasks[i];
        let ghost pre = ts.take(i as int);
        let ghost cur = ts.take(i + 1);
        proof {
            assert(cur.drop_last() =~= pre);
            assert(cur.last() == t@);
        }
        if t.is_open() {
            let overdue = match t.due {
                Some(d) => d.is_before(&today),
                None => false,
            };
            if overdue {
                push_task(&mut plan.overdue, t);
            }
            if t.due == Some(today) {
                push_task(&mut plan.due_today, t);
            }
            if t.scheduled == Some(today) {
                push_task(&mut plan.scheduled_today, t);
            }
            if t.is_waiting() {
                push_task(&mut plan.waiting, t);
            }
            match &t.project {
                Some(p) => {
                    let key = chars_of(p.as_str());
                    let d = t.duplicate();
                    group_add(&mut plan.projects, &key, d, Ghost(project_entries(pre)));
                    proof {
                        assert(project_entries(cur) =~= project_entries(pre).push((key@, t@)));
                    }
                },
                None => {
                    proof {
                        assert(project_entries(cur) =~= project_entries(pre));
                    }
                },
            }
            if is_in_inbox(t, &today_text, Ghost(today)) {
                push_task(&mut plan.inbox, t);
            }
        } else {
            proof {
                assert(project_entries(cur) =~= project_entries(pre));
            }
        }
        i += 1;
        proof {
            assert(task_views(plan.overdue@) =~= bucket(cur, Bucket::Overdue, today));
            assert(task_views(plan.due_today@) =~= bucket(cur, Bucket::DueToday, today));
            assert(task_views(plan.scheduled_today@) =~= bucket(cur, Bucket::ScheduledToday, today));
            assert(task_views(plan.waiting@) =~= bucket(cur, Bucket::Waiting, today));
            assert(task_views(plan.inbox@) =~= bucket(cur, Bucket::Inbox, today));
        }
    }
    proof {
        assert(ts.take(tasks.len() as int) =~= ts);
    }
    plan
}


// ---------------------------------------------------------------------------
// Rendering
// ---------------------------------------------------------------------------
/// One task of a generated list: `- [ ] <text> <!-- <source ref> -->`.
pub open spec fn plan_item(t: TaskView) -> Seq<char> {
    "- [ ] "@ + t.text + " <!-- "@ + t.source_ref() + " -->\n"@
}

pub open spec fn plan_items(ts: Seq<TaskView>) -> Seq<char>
    decreases ts.len(),
{
    if ts.len() == 0 {
        seq![]
    } else {
        plan_items(ts.drop_last()) + plan_item(ts.last())
    }
}

/// A `### <title>` section listing the tasks, or `- None`.
pub open spec fn group_section(title: Seq<char>, ts: Seq<TaskView>) -> Seq<char> {
    "\n### "@ + title + "\n"@ + if ts.len() == 0 {
        "- None\n"@
    } else {
        plan_items(ts)
    }
}

pub open spec fn project_sections(gs: Seq<(Seq<char>, Seq<TaskView>)>) -> Seq<char>
    decreases gs.len(),
{
    if gs.len() == 0 {
        seq![]
    } else {
        project_sections(gs.drop_last()) + "\n#### "@ + gs.last().0 + "\n"@ + plan_items(
            gs.last().1,
        )
    }
}

/// `### Projects` with a `#### <project>` list per project, or `- None`.
pub open spec fn projects_section(gs: Seq<(Seq<char>, Seq<TaskView>)>) -> Seq<char> {
    "\n### Projects\n"@ + if gs.len() == 0 {
        "- None\n"@
    } else {
        project_sections(gs)
    }
}

/// The generated plan section body.
pub open spec fn render_plan_spec(p: Plan, today: Date) -> Seq<char> {
    trim_end(
        "## Focus Plan - "@ + today.text() + "\n"@ + group_section(
            "Overdue"@,
            task_views(p.overdue@),
        ) + group_section("Due Today"@, task_views(p.due_today@)) + group_section(
            "Scheduled Today"@,
            task_views(p.scheduled_today@),
        ) + group_section("Waiting"@, task_views(p.waiting@)) + projects_section(
            group_views(p.projects@),
        ) + group_section("Inbox"@, task_views(p.inbox@)),
    )
}

/// Appends the generated-list items of the tasks.
pub fn push_plan_items(out: &mut Vec<char>, ts: &Vec<Task>)
    ensures
        final(out)@ == old(out)@ + plan_items(task_views(ts@)),
{
    let mut i: usize = 0;
    while i < ts.len()
        invariant
            i <= ts.len(),
            out@ == old(out)@ + plan_items(task_views(ts@).take(i as int)),
        decreases ts.len() - i,
    {
        let t = &ts[i];
        extend_str(out, "- [ ] ");
        extend_str(out, t.text.as_str());
        extend_str(out, " <!-- ");
        let r = t.source_ref();
        extend_str(out, r.as_str());
        extend_str(out, " -->\n");
        proof {
            let cur = task_views(ts@).take(i + 1);
            assert(cur.drop_last() =~= task_views(ts@).take(i as int));
            assert(cur.last() == t@);
            assert(out@ =~= old(out)@ + plan_items(cur));
        }
        i += 1;
    }
    assert(task_views(ts@).take(ts.len() as int) =~= task_views(ts@));
}

pub fn render_group(out: &mut Vec<char>, title: &str, ts: &Vec<Task>)
    ensures
        final(out)@ == old(out)@ + group_section(title@, task_views(ts@)),
{
    extend_str(out, "\n### ");
    extend_str(out, title);
    extend_str(out, "\n");
    if ts.len() == 0 {
        extend_str(out, "- None\n");
    } else {
        push_plan_items(out, ts);
    }
    assert(out@ =~= old(out)@ + group_section(title@, task_views(ts@)));
}

pub fn render_project_groups(out: &mut Vec<char>, gs: &Vec<TaskGroup>)
    ensures
        final(out)@ == old(out)@ + projects_section(group_views(gs@)),
{
    extend_str(out, "\n### Projects\n");
    let ghost base = out@;
    if gs.len() == 0 {
        extend_str(out, "- None\n");
    } else {
        let mut i: usize = 0;
        while i < gs.len()
            invariant
                i <= gs.len(),
                out@ == base + project_sections(group_views(gs@).take(i as int)),
            decreases gs.len() - i,
        {
            let g = &gs[i];
            extend_str(out, "\n#### ");
            extend_str(out, g.name.as_str());
            extend_str(out, "\n");
            push_plan_items(out, &g.tasks);
            proof {
                let cur = group_views(gs@).take(i + 1);
                assert(cur.drop_last() =~= group_views(gs@).take(i as int));
                assert(cur.last() == (g.name@, task_views(g.tasks@)));
                assert(out@ =~= base + project_sections(cur));
            }
            i += 1;
        }
        assert(group_views(gs@).take(gs.len() as int) =~= group_views(gs@));
    }
    assert(out@ =~= old(out)@ + projects_section(group_views(gs@)));
}

/// The text without trailing whitespace.
pub fn trim_end_chars(v: &Vec<char>) -> (r: Vec<char>)
    ensures
        r@ == trim_end(v@),
{
    let b = ws_run_start(v, v.len());
    assert(v@.take(v.len() as int) =~= v@);
    slice(v, 0, b)
}

pub fn render_plan(plan: &Plan, today: Date) -> (r: String)
    requires
        today.wf(),
    ensures
        r@ == render_plan_spec(*plan, today),
{
    let mut out = chars_of("## Focus Plan - ");
    let t = today.text_chars();
    extend(&mut out, &t);
    extend_str(&mut out, "\n");
    render_group(&mut out, "Overdue", &plan.overdue);
    render_group(&mut out, "Due Today", &plan.due_today);
    render_group(&mut out, "Scheduled Today", &plan.scheduled_today);
    render_group(&mut out, "Waiting", &plan.waiting);
    render_project_groups(&mut out, &plan.projects);
    render_group(&mut out, "Inbox", &plan.inbox);
    let ghost full = out@;
    proof {
        assert(full =~= "## Focus Plan - "@ + today.text() + "\n"@ + group_section(
            "Overdue"@,
            task_views(plan.overdue@),
        ) + group_section("Due Today"@, task_views(plan.due_today@)) + group_section(
            "Scheduled Today"@,
            task_views(plan.scheduled_today@),
        ) + group_section("Waiting"@, task_views(plan.waiting@)) + projects_section(
            group_views(plan.projects@),
        ) + group_section("Inbox"@, task_views(plan.inbox@)));
    }
    string_of(&trim_end_chars(&out))
}

/// The plan counts, one per line.
pub open spec fn render_summary_spec(p: Plan) -> Seq<char> {
    "Overdue: "@ + decimal(p.overdue@.len()) + "\nDue today: "@ + decimal(p.due_today@.len())
        + "\nScheduled today: "@ + decimal(p.scheduled_today@.len()) + "\nWaiting: "@ + decimal(
        p.waiting@.len(),
    ) + "\nProjects: "@ + decimal(p.projects@.len()) + "\nInbox: "@ + decimal(p.inbox@.len())
        + "\nTotal: "@ + decimal(p.total_spec())
}

pub fn push_count(out: &mut Vec<char>, label: &str, n: usize)
    ensures
        final(out)@ == old(out)@ + label@ + decimal(n as nat),
{
    extend_str(out, label);
    let d = decimal_chars(n as u64);
    extend(out, &d);
    assert(out@ =~= old(out)@ + label@ + decimal(n as nat));
}

pub fn render_summary(plan: &Plan) -> (r: String)
    requires
        plan.total_spec() <= usize::MAX,
    ensures
        r@ == render_summary_spec(*plan),
{
    let mut out: Vec<char> = Vec::new();
    push_count(&mut out, "Overdue: ", plan.overdue.len());
    push_count(&mut out, "\nDue today: ", plan.due_today.len());
    push_count(&mut out, "\nScheduled today: ", plan.scheduled_today.len());
    push_count(&mut out, "\nWaiting: ", plan.waiting.len());
    push_count(&mut out, "\nProjects: ", plan.projects.len());
    push_count(&mut out, "\nInbox: ", plan.inbox.len());
    let total = plan.total();
    push_count(&mut out, "\nTotal: ", total);
    proof {
        assert(out@ =~= render_summary_spec(*plan));
    }
    string_of(&out)
}

} // verus!
