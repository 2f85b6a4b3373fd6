//! Laws of the lists the library renders and the sections it shows: each
//! list of tasks, groups or reminders is built item by item, so two runs
//! of items give the two lists one after the other and nothing is dropped;
//! a single item is written in its own line format.
use vstd::prelude::*;
use crate::date::{decimal, Date};
use crate::groups::{tasks_with_key, TaskGroup};
use crate::notifications::candidates_spec;
use crate::planner::{
    bucket, group_task_count, is_plan_for, plan_items, project_entries, project_sections, Bucket,
    Plan,
};
use crate::plan_laws::law_plan_buckets;
use crate::projects::{due_soon, project_lines, project_task_items, ProjectSummary};
use crate::review::count_where;
use crate::text::find_sub;
use crate::task::{task_views, TaskView};
use crate::tui::{group_tasks_flat, section_tasks, Section};
use crate::waiting::{ledger_count, ledger_entries, ledger_sections};

verus! {

/// A plan list of two runs of tasks is the list of the first run followed by
/// the list of the second, and a single task is listed as `- [ ] <text> <!--
/// <source ref> -->`: every task of a bucket gets its own line, in order.
pub proof fn law_plan_items_concat(a: Seq<TaskView>, b: Seq<TaskView>)
    ensures
        plan_items(a + b) == plan_items(a) + plan_items(b),
        forall|t: TaskView| #[trigger] plan_items(seq![t]) == "- [ ] "@ + t.text + " <!-- "@ + t.source_ref() + " -->\n"@,
    decreases b.len(),
{
    assert forall|t: TaskView| #[trigger] plan_items(seq![t]) == "- [ ] "@ + t.text + " <!-- "@ + t.source_ref() + " -->\n"@ by {
        assert(seq![t].drop_last() =~= Seq::<TaskView>::empty());
        assert(seq![t].last() == t);
        assert(plan_items(Seq::<TaskView>::empty()) =~= Seq::<char>::empty());
        assert(plan_items(seq![t]) =~= "- [ ] "@ + t.text + " <!-- "@ + t.source_ref() + " -->\n"@);
    }
    if b.len() == 0 {
        assert(a + b =~= a);
        assert(plan_items(a) + plan_items(b) =~= plan_items(a));
    } else {
        law_plan_items_concat(a, b.drop_last());
        assert((a + b).drop_last() =~= a + b.drop_last());
        assert((a + b).last() == b.last());
        assert(plan_items(a + b) =~= plan_items(a) + plan_items(b));
    }
}

/// The task list of a project report, over two runs of tasks, is the first
/// run's list followed by the second's, and a single task is listed as `-
/// <text> (<source ref>)`: every open task of the project gets its own line,
/// in order.
pub proof fn law_project_task_items_concat(a: Seq<TaskView>, b: Seq<TaskView>)
    ensures
        project_task_items(a + b) == project_task_items(a) + project_task_items(b),
        forall|t: TaskView| #[trigger] project_task_items(seq![t]) == "- "@ + t.text + " ("@ + t.source_ref() + ")\n"@,
    decreases b.len(),
{
    assert forall|t: TaskView| #[trigger] project_task_items(seq![t]) == "- "@ + t.text + " ("@ + t.source_ref() + ")\n"@ by {
        assert(seq![t].drop_last() =~= Seq::<TaskView>::empty());
        assert(seq![t].last() == t);
        assert(project_task_items(Seq::<TaskView>::empty()) =~= Seq::<char>::empty());
        assert(project_task_items(seq![t]) =~= "- "@ + t.text + " ("@ + t.source_ref() + ")\n"@);
    }
    if b.len() == 0 {
        assert(a + b =~= a);
        assert(project_task_items(a) + project_task_items(b) =~= project_task_items(a));
    } else {
        law_project_task_items_concat(a, b.drop_last());
        assert((a + b).drop_last() =~= a + b.drop_last());
        assert((a + b).last() == b.last());
        assert(project_task_items(a + b) =~= project_task_items(a) + project_task_items(b));
    }
}

/// The project list over two runs of summaries is the first run's lines
/// followed by the second's, and a single project gets the line `<name>: open
/// <n>, overdue <n>, due soon <n>, waiting <n>`: every project is listed, in
/// order.
pub proof fn law_project_lines_concat(a: Seq<ProjectSummary>, b: Seq<ProjectSummary>)
    ensures
        project_lines(a + b) == project_lines(a) + project_lines(b),
        forall|s: ProjectSummary| #[trigger] project_lines(seq![s]) == s.name@ + ": open "@ + decimal(s.open@.len()) + ", overdue "@ + decimal(s.overdue@.len()) + ", due soon "@ + decimal(s.due_soon@.len()) + ", waiting "@ + decimal(s.waiting@.len()) + "\n"@,
    decreases b.len(),
{
    assert forall|s: ProjectSummary| #[trigger] project_lines(seq![s]) == s.name@ + ": open "@ + decimal(s.open@.len()) + ", overdue "@ + decimal(s.overdue@.len()) + ", due soon "@ + decimal(s.due_soon@.len()) + ", waiting "@ + decimal(s.waiting@.len()) + "\n"@ by {
        assert(seq![s].drop_last() =~= Seq::<ProjectSummary>::empty());
        assert(seq![s].last() == s);
        assert(project_lines(Seq::<ProjectSummary>::empty()) =~= Seq::<char>::empty());
        assert(project_lines(seq![s]) =~= s.name@ + ": open "@ + decimal(s.open@.len()) + ", overdue "@ + decimal(s.overdue@.len()) + ", due soon "@ + decimal(s.due_soon@.len()) + ", waiting "@ + decimal(s.waiting@.len()) + "\n"@);
    }
    if b.len() == 0 {
        assert(a + b =~= a);
        assert(project_lines(a) + project_lines(b) =~= project_lines(a));
    } else {
        law_project_lines_concat(a, b.drop_last());
        assert((a + b).drop_last() =~= a + b.drop_last());
        assert((a + b).last() == b.last());
        assert(project_lines(a + b) =~= project_lines(a) + project_lines(b));
    }
}

/// The project sections of a plan, over two runs of groups, are the first
/// run's sections followed by the second's, and a single project gets `####
/// <project>` and its task list: every project group is rendered, in order.
pub proof fn law_project_sections_concat(a: Seq<(Seq<char>, Seq<TaskView>)>, b: Seq<(Seq<char>, Seq<TaskView>)>)
    ensures
        project_sections(a + b) == project_sections(a) + project_sections(b),
        forall|g: (Seq<char>, Seq<TaskView>)| #[trigger] project_sections(seq![g]) == "\n#### "@ + g.0 + "\n"@ + plan_items(g.1),
    decreases b.len(),
{
    assert forall|g: (Seq<char>, Seq<TaskView>)| #[trigger] project_sections(seq![g]) == "\n#### "@ + g.0 + "\n"@ + plan_items(g.1) by {
        assert(seq![g].drop_last() =~= Seq::<(Seq<char>, Seq<TaskView>)>::empty());
        assert(seq![g].last() == g);
        assert(project_sections(Seq::<(Seq<char>, Seq<TaskView>)>::empty()) =~= Seq::<char>::empty());
        assert(project_sections(seq![g]) =~= "\n#### "@ + g.0 + "\n"@ + plan_items(g.1));
    }
    if b.len() == 0 {
        assert(a + b =~= a);
        assert(project_sections(a) + project_sections(b) =~= project_sections(a));
    } else {
        law_project_sections_concat(a, b.drop_last());
        assert((a + b).drop_last() =~= a + b.drop_last());
        assert((a + b).last() == b.last());
        assert(project_sections(a + b) =~= project_sections(a) + project_sections(b));
    }
}

/// The ledger sections, over two runs of groups, are the first run's sections
/// followed by the second's, and a single person gets `### <person>` and
/// their task list: every person's group is rendered, in order.
pub proof fn law_ledger_sections_concat(a: Seq<(Seq<char>, Seq<TaskView>)>, b: Seq<(Seq<char>, Seq<TaskView>)>)
    ensures
        ledger_sections(a + b) == ledger_sections(a) + ledger_sections(b),
        forall|g: (Seq<char>, Seq<TaskView>)| #[trigger] ledger_sections(seq![g]) == "\n### "@ + g.0 + "\n"@ + plan_items(g.1),
    decreases b.len(),
{
    assert forall|g: (Seq<char>, Seq<TaskView>)| #[trigger] ledger_sections(seq![g]) == "\n### "@ + g.0 + "\n"@ + plan_items(g.1) by {
        assert(seq![g].drop_last() =~= Seq::<(Seq<char>, Seq<TaskView>)>::empty());
        assert(seq![g].last() == g);
        assert(ledger_sections(Seq::<(Seq<char>, Seq<TaskView>)>::empty()) =~= Seq::<char>::empty());
        assert(ledger_sections(seq![g]) =~= "\n### "@ + g.0 + "\n"@ + plan_items(g.1));
    }
    if b.len() == 0 {
        assert(a + b =~= a);
        assert(ledger_sections(a) + ledger_sections(b) =~= ledger_sections(a));
    } else {
        law_ledger_sections_concat(a, b.drop_last());
        assert((a + b).drop_last() =~= a + b.drop_last());
        assert((a + b).last() == b.last());
        assert(ledger_sections(a + b) =~= ledger_sections(a) + ledger_sections(b));
    }
}

/// The tasks of two runs of project groups are the first run's tasks followed
/// by the second's, and a single group gives its own tasks: the Projects
/// section lists every task of every project, in project order.
pub proof fn law_group_tasks_flat_concat(a: Seq<TaskGroup>, b: Seq<TaskGroup>)
    ensures
        group_tasks_flat(a + b) == group_tasks_flat(a) + group_tasks_flat(b),
        forall|g: TaskGroup| #[trigger] group_tasks_flat(seq![g]) == task_views(g.tasks@),
    decreases b.len(),
{
    assert forall|g: TaskGroup| #[trigger] group_tasks_flat(seq![g]) == task_views(g.tasks@) by {
        assert(seq![g].drop_last() =~= Seq::<TaskGroup>::empty());
        assert(seq![g].last() == g);
        assert(group_tasks_flat(Seq::<TaskGroup>::empty()) =~= Seq::<TaskView>::empty());
        assert(group_tasks_flat(seq![g]) =~= task_views(g.tasks@));
    }
    if b.len() == 0 {
        assert(a + b =~= a);
        assert(group_tasks_flat(a) + group_tasks_flat(b) =~= group_tasks_flat(a));
    } else {
        law_group_tasks_flat_concat(a, b.drop_last());
        assert((a + b).drop_last() =~= a + b.drop_last());
        assert((a + b).last() == b.last());
        assert(group_tasks_flat(a + b) =~= group_tasks_flat(a) + group_tasks_flat(b));
    }
}

/// The number of tasks in two runs of project groups is the sum of the two,
/// and a single group counts its own tasks.
pub proof fn law_group_task_count_concat(a: Seq<TaskGroup>, b: Seq<TaskGroup>)
    ensures
        group_task_count(a + b) == group_task_count(a) + group_task_count(b),
        forall|g: TaskGroup| #[trigger] group_task_count(seq![g]) == g.tasks@.len(),
    decreases b.len(),
{
    assert forall|g: TaskGroup| #[trigger] group_task_count(seq![g]) == g.tasks@.len() by {
        assert(seq![g].drop_last() =~= Seq::<TaskGroup>::empty());
        assert(seq![g].last() == g);
        assert(group_task_count(seq![g]) == group_task_count(Seq::<TaskGroup>::empty()) + g.tasks@.len());
    }
    if b.len() == 0 {
        assert(a + b =~= a);
    } else {
        law_group_task_count_concat(a, b.drop_last());
        assert((a + b).drop_last() =~= a + b.drop_last());
        assert((a + b).last() == b.last());
    }
}

/// The number of tasks in two runs of ledger groups is the sum of the two,
/// and a single group counts its own tasks.
pub proof fn law_ledger_count_concat(a: Seq<TaskGroup>, b: Seq<TaskGroup>)
    ensures
        ledger_count(a + b) == ledger_count(a) + ledger_count(b),
        forall|g: TaskGroup| #[trigger] ledger_count(seq![g]) == g.tasks@.len(),
    decreases b.len(),
{
    assert forall|g: TaskGroup| #[trigger] ledger_count(seq![g]) == g.tasks@.len() by {
        assert(seq![g].drop_last() =~= Seq::<TaskGroup>::empty());
        assert(seq![g].last() == g);
        assert(ledger_count(seq![g]) == ledger_count(Seq::<TaskGroup>::empty()) + g.tasks@.len());
    }
    if b.len() == 0 {
        assert(a + b =~= a);
    } else {
        law_ledger_count_concat(a, b.drop_last());
        assert((a + b).drop_last() =~= a + b.drop_last());
        assert((a + b).last() == b.last());
    }
}

/// The project entries of two runs of tasks are the first run's followed by
/// the second's: no open project task is dropped or reordered.
pub proof fn law_project_entries_concat(a: Seq<TaskView>, b: Seq<TaskView>)
    ensures
        project_entries(a + b) == project_entries(a) + project_entries(b),
    decreases b.len(),
{
    if b.len() == 0 {
        assert(a + b =~= a);
        assert(project_entries(a) + project_entries(b) =~= project_entries(a));
    } else {
        law_project_entries_concat(a, b.drop_last());
        assert((a + b).drop_last() =~= a + b.drop_last());
        assert((a + b).last() == b.last());
        assert(project_entries(a + b) =~= project_entries(a) + project_entries(b));
    }
}

/// The ledger entries of two runs of tasks are the first run's followed by
/// the second's: no open waiting task is dropped or reordered.
pub proof fn law_ledger_entries_concat(a: Seq<TaskView>, b: Seq<TaskView>)
    ensures
        ledger_entries(a + b) == ledger_entries(a) + ledger_entries(b),
    decreases b.len(),
{
    if b.len() == 0 {
        assert(a + b =~= a);
        assert(ledger_entries(a) + ledger_entries(b) =~= ledger_entries(a));
    } else {
        law_ledger_entries_concat(a, b.drop_last());
        assert((a + b).drop_last() =~= a + b.drop_last());
        assert((a + b).last() == b.last());
        assert(ledger_entries(a + b) =~= ledger_entries(a) + ledger_entries(b));
    }
}

/// A bucket of two runs of tasks is the first run's bucket followed by the
/// second's: a bucket keeps every task that meets its rule, in order.
pub proof fn law_bucket_concat(a: Seq<TaskView>, b: Seq<TaskView>, kind: Bucket, today: Date)
    ensures
        bucket(a + b, kind, today) == bucket(a, kind, today) + bucket(b, kind, today),
    decreases b.len(),
{
    if b.len() == 0 {
        assert(a + b =~= a);
        assert(bucket(a, kind, today) + bucket(b, kind, today) =~= bucket(a, kind, today));
    } else {
        law_bucket_concat(a, b.drop_last(), kind, today);
        assert((a + b).drop_last() =~= a + b.drop_last());
        assert((a + b).last() == b.last());
        assert(bucket(a + b, kind, today) =~= bucket(a, kind, today) + bucket(b, kind, today));
    }
}

/// The reminders for two runs of tasks are the first run's followed by the
/// second's: each task's reminder is given, in task order.
pub proof fn law_candidates_spec_concat(a: Seq<TaskView>, b: Seq<TaskView>, today: Date)
    ensures
        candidates_spec(a + b, today) == candidates_spec(a, today) + candidates_spec(b, today),
    decreases b.len(),
{
    if b.len() == 0 {
        assert(a + b =~= a);
        assert(candidates_spec(a, today) + candidates_spec(b, today) =~= candidates_spec(a, today));
    } else {
        law_candidates_spec_concat(a, b.drop_last(), today);
        assert((a + b).drop_last() =~= a + b.drop_last());
        assert((a + b).last() == b.last());
        assert(candidates_spec(a + b, today) =~= candidates_spec(a, today) + candidates_spec(b, today));
    }
}

/// The tasks due soon among two runs of tasks are the first run's followed by
/// the second's: every task due from today through the horizon is kept, in
/// order.
pub proof fn law_due_soon_concat(a: Seq<TaskView>, b: Seq<TaskView>, today: Date, horizon: Date)
    ensures
        due_soon(a + b, today, horizon) == due_soon(a, today, horizon) + due_soon(b, today, horizon),
    decreases b.len(),
{
    if b.len() == 0 {
        assert(a + b =~= a);
        assert(due_soon(a, today, horizon) + due_soon(b, today, horizon) =~= due_soon(a, today, horizon));
    } else {
        law_due_soon_concat(a, b.drop_last(), today, horizon);
        assert((a + b).drop_last() =~= a + b.drop_last());
        assert((a + b).last() == b.last());
        assert(due_soon(a + b, today, horizon) =~= due_soon(a, today, horizon) + due_soon(b, today, horizon));
    }
}

/// Each review count over two runs of tasks is the sum of the counts over
/// each: every task is counted.
pub proof fn law_count_where_concat(a: Seq<TaskView>, b: Seq<TaskView>, which: int, today: Date)
    ensures
        count_where(a + b, which, today) == count_where(a, which, today) + count_where(b, which, today),
    decreases b.len(),
{
    if b.len() == 0 {
        assert(a + b =~= a);
    } else {
        law_count_where_concat(a, b.drop_last(), which, today);
        assert((a + b).drop_last() =~= a + b.drop_last());
        assert((a + b).last() == b.last());
    }
}

/// Which buckets of the plan a single task falls in on `today`, by the
/// plan's rules: only open tasks are planned; a task due before today is
/// overdue, one due today is due today, one scheduled today is scheduled
/// today (whatever its due date), one with a waiting tag is waiting, and
/// one whose note path holds today's date and that has no plain `#waiting`
/// tag is in the inbox.
pub proof fn law_bucket_rules(t: TaskView, today: Date)
    ensures
        bucket(seq![t], Bucket::Overdue, today) == (if t.is_open() && (t.due matches Some(d)
            && d.before(today)) {
            seq![t]
        } else {
            Seq::<TaskView>::empty()
        }),
        bucket(seq![t], Bucket::DueToday, today) == (if t.is_open() && t.due == Some(today) {
            seq![t]
        } else {
            Seq::<TaskView>::empty()
        }),
        bucket(seq![t], Bucket::ScheduledToday, today) == (if t.is_open() && t.scheduled == Some(
            today,
        ) {
            seq![t]
        } else {
            Seq::<TaskView>::empty()
        }),
        bucket(seq![t], Bucket::Waiting, today) == (if t.is_open() && t.is_waiting() {
            seq![t]
        } else {
            Seq::<TaskView>::empty()
        }),
        bucket(seq![t], Bucket::Inbox, today) == (if t.is_open() && find_sub(t.path, today.text())
            is Some && (forall|i: int| 0 <= i < t.tags.len() ==> #[trigger] t.tags[i] != "#waiting"@) {
            seq![t]
        } else {
            Seq::<TaskView>::empty()
        }),
{
    let e = Seq::<TaskView>::empty();
    assert(seq![t].drop_last() =~= e);
    assert(seq![t].last() == t);
    assert(bucket(e, Bucket::Overdue, today) =~= e);
    assert(bucket(e, Bucket::DueToday, today) =~= e);
    assert(bucket(e, Bucket::ScheduledToday, today) =~= e);
    assert(bucket(e, Bucket::Waiting, today) =~= e);
    assert(bucket(e, Bucket::Inbox, today) =~= e);
}

/// A single task's project entry and ledger entry: an open task with a
/// project is filed under that project, and an open waiting task under its
/// person (`Unassigned` when it names none); no other task is filed.
pub proof fn law_entry_rules(t: TaskView)
    ensures
        project_entries(seq![t]) == (if t.is_open() && t.project is Some {
            seq![(t.project.unwrap(), t)]
        } else {
            Seq::<(Seq<char>, TaskView)>::empty()
        }),
        ledger_entries(seq![t]) == (if t.is_open() && t.is_waiting() {
            seq![(
                match t.person {
                    Some(p) => p,
                    None => "Unassigned"@,
                },
                t,
            )]
        } else {
            Seq::<(Seq<char>, TaskView)>::empty()
        }),
{
    let e = Seq::<TaskView>::empty();
    assert(seq![t].drop_last() =~= e);
    assert(seq![t].last() == t);
    assert(project_entries(e) =~= Seq::<(Seq<char>, TaskView)>::empty());
    assert(ledger_entries(e) =~= Seq::<(Seq<char>, TaskView)>::empty());
}

/// The review counts of a single task: it counts as completed today when
/// done with today's completion date, as due by today when open and due
/// today or earlier, and as waiting when open with a waiting tag.
pub proof fn law_review_count_rules(t: TaskView, today: Date)
    ensures
        count_where(seq![t], 0, today) == (if t.is_done() && t.done == Some(today) {
            1nat
        } else {
            0nat
        }),
        count_where(seq![t], 1, today) == (if t.is_open() && (t.due matches Some(d)
            && !today.before(d)) {
            1nat
        } else {
            0nat
        }),
        count_where(seq![t], 2, today) == (if t.is_open() && t.is_waiting() {
            1nat
        } else {
            0nat
        }),
{
    let e = Seq::<TaskView>::empty();
    assert(seq![t].drop_last() =~= e);
    assert(seq![t].last() == t);
    assert(count_where(e, 0, today) == 0 && count_where(e, 1, today) == 0 && count_where(
        e,
        2,
        today,
    ) == 0);
    assert(count_where(seq![t], 0, today) == count_where(e, 0, today) + (if t.is_done()
        && t.done == Some(today) {
        1nat
    } else {
        0nat
    }));
    assert(count_where(seq![t], 1, today) == count_where(e, 1, today) + (if t.is_open() && (
    t.due matches Some(d) && !today.before(d)) {
        1nat
    } else {
        0nat
    }));
    assert(count_where(seq![t], 2, today) == count_where(e, 2, today) + (if t.is_open()
        && t.is_waiting() {
        1nat
    } else {
        0nat
    }));
}

/// A single task is due soon when it is due from today through the horizon.
pub proof fn law_due_soon_rule(t: TaskView, today: Date, horizon: Date)
    ensures
        due_soon(seq![t], today, horizon) == (if (t.due matches Some(d) && !d.before(today)
            && !horizon.before(d)) {
            seq![t]
        } else {
            Seq::<TaskView>::empty()
        }),
{
    let e = Seq::<TaskView>::empty();
    assert(seq![t].drop_last() =~= e);
    assert(seq![t].last() == t);
    assert(due_soon(e, today, horizon) =~= e);
}

/// The Projects section lists as many tasks as the plan's project groups
/// hold.
proof fn lemma_flat_len(gs: Seq<TaskGroup>)
    ensures
        group_tasks_flat(gs).len() == group_task_count(gs),
    decreases gs.len(),
{
    if gs.len() > 0 {
        lemma_flat_len(gs.drop_last());
    }
}

/// What each section of the command center lists: the Inbox, Overdue,
/// Scheduled and Waiting sections list their plan buckets, Today lists the
/// tasks due today and then those scheduled today, and Projects lists
/// every task of every project group, in project order.
pub proof fn law_section_contents(p: Plan)
    ensures
        section_tasks(p, Section::Inbox) == task_views(p.inbox@),
        section_tasks(p, Section::Overdue) == task_views(p.overdue@),
        section_tasks(p, Section::Scheduled) == task_views(p.scheduled_today@),
        section_tasks(p, Section::Waiting) == task_views(p.waiting@),
        section_tasks(p, Section::Today) == task_views(p.due_today@) + task_views(
            p.scheduled_today@,
        ),
        section_tasks(p, Section::Projects).len() == group_task_count(p.projects@),
        forall|g: int|
            0 <= g < p.projects@.len() ==> section_tasks(p, Section::Projects) == group_tasks_flat(
                p.projects@.take(g),
            ) + task_views((#[trigger] p.projects@[g]).tasks@) + group_tasks_flat(
                p.projects@.skip(g + 1),
            ),
{
    lemma_flat_len(p.projects@);
    let gs = p.projects@;
    assert forall|g: int| 0 <= g < gs.len() implies group_tasks_flat(gs) == group_tasks_flat(
        gs.take(g),
    ) + task_views((#[trigger] gs[g]).tasks@) + group_tasks_flat(gs.skip(g + 1)) by {
        assert(gs =~= gs.take(g) + (seq![gs[g]] + gs.skip(g + 1)));
        law_group_tasks_flat_concat(gs.take(g), seq![gs[g]] + gs.skip(g + 1));
        law_group_tasks_flat_concat(seq![gs[g]], gs.skip(g + 1));
    }
}

/// The tasks filed under a key, over two runs of entries, are the first
/// run's followed by the second's, and a single entry files its task under
/// its own key only: a group holds every task filed under its key, in
/// order.
pub proof fn law_tasks_with_key_concat(
    a: Seq<(Seq<char>, TaskView)>,
    b: Seq<(Seq<char>, TaskView)>,
    k: Seq<char>,
)
    ensures
        tasks_with_key(a + b, k) == tasks_with_key(a, k) + tasks_with_key(b, k),
        forall|e: (Seq<char>, TaskView)| #[trigger] tasks_with_key(seq![e], k) == (if e.0 == k {
            seq![e.1]
        } else {
            Seq::<TaskView>::empty()
        }),
    decreases b.len(),
{
    assert forall|e: (Seq<char>, TaskView)| #[trigger] tasks_with_key(seq![e], k) == (if e.0 == k {
        seq![e.1]
    } else {
        Seq::<TaskView>::empty()
    }) by {
        assert(seq![e].drop_last() =~= Seq::<(Seq<char>, TaskView)>::empty());
        assert(seq![e].last() == e);
        assert(tasks_with_key(Seq::<(Seq<char>, TaskView)>::empty(), k) =~= Seq::<TaskView>::empty());
        assert(tasks_with_key(seq![e], k) =~= (if e.0 == k {
            seq![e.1]
        } else {
            Seq::<TaskView>::empty()
        }));
    }
    if b.len() == 0 {
        assert(a + b =~= a);
        assert(tasks_with_key(a, k) + tasks_with_key(b, k) =~= tasks_with_key(a, k));
    } else {
        law_tasks_with_key_concat(a, b.drop_last(), k);
        assert((a + b).drop_last() =~= a + b.drop_last());
        assert((a + b).last() == b.last());
        assert(tasks_with_key(a + b, k) =~= tasks_with_key(a, k) + tasks_with_key(b, k));
    }
}

/// Which reminder a task gets on `today`: none when it is not open; an
/// overdue task gets `Overdue task`, one due today `Task due today`, and
/// one scheduled today that is neither `Task scheduled today`, whatever
/// later due date it has; an open task due after today (or never) and not
/// scheduled today gets none. (A waiting task due by today is already
/// overdue or due today, so that is the reminder it gets.)
pub proof fn law_reminder_rules(t: TaskView, today: Date)
    ensures
        !t.is_open() ==> candidates_spec(seq![t], today) == Seq::<(Seq<char>, Seq<char>)>::empty(),
        t.is_open() && (t.due matches Some(d) && d.before(today)) ==> candidates_spec(seq![t], today)
            == seq![("Overdue task"@, t.text)],
        t.is_open() && t.due == Some(today) ==> candidates_spec(seq![t], today) == seq![
            ("Task due today"@, t.text),
        ],
        t.is_open() && !(t.due matches Some(d) && d.before(today)) && t.due != Some(today)
            && t.scheduled == Some(today) ==> candidates_spec(seq![t], today) == seq![
            ("Task scheduled today"@, t.text),
        ],
        t.is_open() && (t.due matches Some(d) ==> today.before(d)) && t.scheduled != Some(today)
            ==> candidates_spec(seq![t], today) == Seq::<(Seq<char>, Seq<char>)>::empty(),
{
    let e = Seq::<TaskView>::empty();
    assert(seq![t].drop_last() =~= e);
    assert(seq![t].last() == t);
    assert(candidates_spec(e, today) =~= Seq::<(Seq<char>, Seq<char>)>::empty());
    assert(!today.before(today));
    if t.is_open() && (t.due matches Some(d) ==> today.before(d)) {
        if let Some(d) = t.due {
            assert(!d.before(today) && d != today);
        }
    }
    assert(candidates_spec(seq![t], today) =~= candidates_spec(e, today) + match crate::notifications::reminder_title(t, today) {
        Some(title) => seq![(title, t.text)],
        None => Seq::<(Seq<char>, Seq<char>)>::empty(),
    });
}

proof fn lemma_contains_left<A>(a: Seq<A>, b: Seq<A>, x: A)
    requires
        a.contains(x),
    ensures
        (a + b).contains(x),
{
    let i = choose|i: int| 0 <= i < a.len() && a[i] == x;
    assert((a + b)[i] == x);
}

proof fn lemma_contains_right<A>(a: Seq<A>, b: Seq<A>, x: A)
    requires
        b.contains(x),
    ensures
        (a + b).contains(x),
{
    let i = choose|i: int| 0 <= i < b.len() && b[i] == x;
    assert((a + b)[a.len() + i] == x);
}

/// The Today section of the plan for a scan lists the tasks due today
/// followed by the tasks scheduled today (the Scheduled section): as many
/// as the two together, each an open task of the scan due or scheduled
/// today, and every open task of the scan that is due or scheduled today
/// among them.
pub proof fn law_today_section(p: Plan, ts: Seq<TaskView>, today: Date)
    requires
        is_plan_for(p, ts, today),
    ensures
        section_tasks(p, Section::Today) == task_views(p.due_today@) + section_tasks(
            p,
            Section::Scheduled,
        ),
        section_tasks(p, Section::Today).len() == p.due_today@.len() + p.scheduled_today@.len(),
        forall|i: int|
            0 <= i < section_tasks(p, Section::Today).len() ==> {
                let t = #[trigger] section_tasks(p, Section::Today)[i];
                &&& t.is_open()
                &&& (t.due == Some(today) || t.scheduled == Some(today))
                &&& ts.contains(t)
            },
        forall|j: int|
            0 <= j < ts.len() && (#[trigger] ts[j]).is_open() && (ts[j].due == Some(today)
                || ts[j].scheduled == Some(today)) ==> section_tasks(p, Section::Today).contains(ts[j]),
{
    law_plan_buckets(p, ts, today);
    let dv = task_views(p.due_today@);
    let sv = task_views(p.scheduled_today@);
    let tv = section_tasks(p, Section::Today);
    assert(tv == dv + sv);
    assert forall|i: int| 0 <= i < tv.len() implies {
        let t = #[trigger] tv[i];
        &&& t.is_open()
        &&& (t.due == Some(today) || t.scheduled == Some(today))
        &&& ts.contains(t)
    } by {
        if i < dv.len() {
            assert(tv[i] == p.due_today@[i]@);
        } else {
            assert(tv[i] == p.scheduled_today@[i - dv.len()]@);
        }
    }
    assert forall|j: int|
        0 <= j < ts.len() && (#[trigger] ts[j]).is_open() && (ts[j].due == Some(today)
            || ts[j].scheduled == Some(today)) implies tv.contains(ts[j]) by {
        if ts[j].due == Some(today) {
            assert(crate::planner::in_bucket(ts[j], Bucket::DueToday, today));
            lemma_contains_left(dv, sv, ts[j]);
        } else {
            assert(crate::planner::in_bucket(ts[j], Bucket::ScheduledToday, today));
            lemma_contains_right(dv, sv, ts[j]);
        }
    }
}

} // verus!
