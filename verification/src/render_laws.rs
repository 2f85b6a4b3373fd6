//! Laws of the rendered plan, ledger and project report: every task of
//! every list shows up in the text, as its own item.
use vstd::prelude::*;
use crate::date::Date;
use crate::groups::{group_views, TaskGroup};
use crate::planner::{
    group_section, plan_items, project_sections, projects_section, render_plan_spec, Plan,
};
use crate::projects::{project_task_items, render_project_spec, ProjectSummary};
use crate::task::{task_views, TaskView};
use crate::text::{is_ws, lemma_trail_ws_bound, occurs_at, trail_ws, trim_end};
use crate::view_laws::{
    law_ledger_sections_concat, law_plan_items_concat, law_project_sections_concat,
    law_project_task_items_concat,
};
use crate::waiting::{ledger_sections, render_ledger_spec, WaitingLedger};

verus! {

/// The text holds `pat` somewhere.
pub open spec fn has_sub(s: Seq<char>, pat: Seq<char>) -> bool {
    exists|i: int| occurs_at(s, pat, i)
}

/// A task's item in a generated list, without its line end:
/// `- [ ] <text> <!-- <source ref> -->`.
pub open spec fn plan_entry(t: TaskView) -> Seq<char> {
    "- [ ] "@ + t.text + " <!-- "@ + t.source_ref() + " -->"@
}

/// A task's item in a project report, without its line end:
/// `- <text> (<source ref>)`.
pub open spec fn report_entry(t: TaskView) -> Seq<char> {
    "- "@ + t.text + " ("@ + t.source_ref() + ")"@
}

proof fn lemma_sub_left(a: Seq<char>, b: Seq<char>, pat: Seq<char>)
    requires
        has_sub(a, pat),
    ensures
        has_sub(a + b, pat),
{
    let i = choose|i: int| occurs_at(a, pat, i);
    assert((a + b).subrange(i, i + pat.len()) =~= a.subrange(i, i + pat.len()));
    assert(occurs_at(a + b, pat, i));
}

proof fn lemma_sub_right(a: Seq<char>, b: Seq<char>, pat: Seq<char>)
    requires
        has_sub(b, pat),
    ensures
        has_sub(a + b, pat),
{
    let i = choose|i: int| occurs_at(b, pat, i);
    assert((a + b).subrange(a.len() + i, a.len() + i + pat.len()) =~= b.subrange(
        i,
        i + pat.len(),
    ));
    assert(occurs_at(a + b, pat, a.len() + i));
}

proof fn lemma_sub_mid(a: Seq<char>, b: Seq<char>, c: Seq<char>, pat: Seq<char>)
    requires
        has_sub(b, pat),
    ensures
        has_sub(a + b + c, pat),
{
    lemma_sub_right(a, b, pat);
    lemma_sub_left(a + b, c, pat);
}

/// Trimming the end keeps a piece that ends in a character other than
/// whitespace.
proof fn lemma_sub_trim(s: Seq<char>, pat: Seq<char>)
    requires
        has_sub(s, pat),
        pat.len() > 0,
        !is_ws(pat.last()),
    ensures
        has_sub(trim_end(s), pat),
{
    let i = choose|i: int| occurs_at(s, pat, i);
    lemma_trail_ws_bound(s);
    let e = i + pat.len();
    assert(s[e - 1] == pat.last()) by {
        assert(s.subrange(i, e)[pat.len() - 1] == s[e - 1]);
    }
    assert(e <= s.len() - trail_ws(s));
    let t = trim_end(s);
    assert(t.subrange(i, e) =~= s.subrange(i, e));
    assert(occurs_at(t, pat, i));
}

proof fn lemma_entry_shapes(t: TaskView)
    ensures
        plan_items(seq![t]) == plan_entry(t) + seq!['\n'],
        project_task_items(seq![t]) == report_entry(t) + seq!['\n'],
        plan_entry(t).len() > 0 && plan_entry(t).last() == '>',
        report_entry(t).len() > 0 && report_entry(t).last() == ')',
{
    reveal_strlit(" -->\n");
    reveal_strlit(" -->");
    reveal_strlit(")\n");
    reveal_strlit(")");
    law_plan_items_concat(seq![], seq![]);
    law_project_task_items_concat(seq![], seq![]);
    assert(plan_items(seq![t]) =~= plan_entry(t) + seq!['\n']);
    assert(project_task_items(seq![t]) =~= report_entry(t) + seq!['\n']);
}

/// Each task of a list has its item in the list's text.
proof fn lemma_items_hold(ts: Seq<TaskView>, i: int)
    requires
        0 <= i < ts.len(),
    ensures
        has_sub(plan_items(ts), plan_entry(ts[i])),
        has_sub(project_task_items(ts), report_entry(ts[i])),
{
    let a = ts.take(i);
    let c = ts.skip(i + 1);
    assert(ts =~= a + (seq![ts[i]] + c));
    law_plan_items_concat(a, seq![ts[i]] + c);
    law_plan_items_concat(seq![ts[i]], c);
    law_project_task_items_concat(a, seq![ts[i]] + c);
    law_project_task_items_concat(seq![ts[i]], c);
    lemma_entry_shapes(ts[i]);
    let pe = plan_entry(ts[i]);
    assert(occurs_at(pe + seq!['\n'], pe, 0)) by {
        assert((pe + seq!['\n']).subrange(0, pe.len() as int) =~= pe);
    }
    let re = report_entry(ts[i]);
    assert(occurs_at(re + seq!['\n'], re, 0)) by {
        assert((re + seq!['\n']).subrange(0, re.len() as int) =~= re);
    }
    lemma_sub_mid(plan_items(a), plan_items(seq![ts[i]]), plan_items(c), pe);
    lemma_sub_mid(project_task_items(a), project_task_items(seq![ts[i]]), project_task_items(c), re);
    assert(plan_items(ts) == plan_items(a) + plan_items(seq![ts[i]]) + plan_items(c));
    assert(project_task_items(ts) == project_task_items(a) + project_task_items(seq![ts[i]])
        + project_task_items(c));
}

/// Each task of a group section has its item in the section.
proof fn lemma_group_holds(title: Seq<char>, ts: Seq<TaskView>, i: int)
    requires
        0 <= i < ts.len(),
    ensures
        has_sub(group_section(title, ts), plan_entry(ts[i])),
{
    lemma_items_hold(ts, i);
    lemma_sub_right("\n### "@ + title + "\n"@, plan_items(ts), plan_entry(ts[i]));
}

/// Each task of each group in a run of `### `/`#### ` sections has its item
/// there.
proof fn lemma_sections_hold(gs: Seq<(Seq<char>, Seq<TaskView>)>, g: int, i: int)
    requires
        0 <= g < gs.len(),
        0 <= i < gs[g].1.len(),
    ensures
        has_sub(project_sections(gs), plan_entry(gs[g].1[i])),
        has_sub(ledger_sections(gs), plan_entry(gs[g].1[i])),
{
    let a = gs.take(g);
    let c = gs.skip(g + 1);
    let one = seq![gs[g]];
    assert(gs =~= a + (one + c));
    law_project_sections_concat(a, one + c);
    law_project_sections_concat(one, c);
    law_ledger_sections_concat(a, one + c);
    law_ledger_sections_concat(one, c);
    let pe = plan_entry(gs[g].1[i]);
    lemma_items_hold(gs[g].1, i);
    lemma_sub_right("\n#### "@ + gs[g].0 + "\n"@, plan_items(gs[g].1), pe);
    lemma_sub_right("\n### "@ + gs[g].0 + "\n"@, plan_items(gs[g].1), pe);
    lemma_sub_mid(project_sections(a), project_sections(one), project_sections(c), pe);
    lemma_sub_mid(ledger_sections(a), ledger_sections(one), ledger_sections(c), pe);
    assert(project_sections(gs) == project_sections(a) + project_sections(one) + project_sections(c));
    assert(ledger_sections(gs) == ledger_sections(a) + ledger_sections(one) + ledger_sections(c));
}

proof fn lemma_in_seven(
    s0: Seq<char>,
    s1: Seq<char>,
    s2: Seq<char>,
    s3: Seq<char>,
    s4: Seq<char>,
    s5: Seq<char>,
    s6: Seq<char>,
    pat: Seq<char>,
)
    requires
        has_sub(s1, pat) || has_sub(s2, pat) || has_sub(s3, pat) || has_sub(s4, pat) || has_sub(
            s5,
            pat,
        ) || has_sub(s6, pat),
    ensures
        has_sub(s0 + s1 + s2 + s3 + s4 + s5 + s6, pat),
{
    if has_sub(s1, pat) {
        lemma_sub_right(s0, s1, pat);
    }
    if has_sub(s0 + s1, pat) || has_sub(s2, pat) {
        if has_sub(s0 + s1, pat) {
            lemma_sub_left(s0 + s1, s2, pat);
        } else {
            lemma_sub_right(s0 + s1, s2, pat);
        }
    }
    let x2 = s0 + s1 + s2;
    if has_sub(x2, pat) {
        lemma_sub_left(x2, s3, pat);
    } else if has_sub(s3, pat) {
        lemma_sub_right(x2, s3, pat);
    }
    let x3 = x2 + s3;
    if has_sub(x3, pat) {
        lemma_sub_left(x3, s4, pat);
    } else if has_sub(s4, pat) {
        lemma_sub_right(x3, s4, pat);
    }
    let x4 = x3 + s4;
    if has_sub(x4, pat) {
        lemma_sub_left(x4, s5, pat);
    } else if has_sub(s5, pat) {
        lemma_sub_right(x4, s5, pat);
    }
    let x5 = x4 + s5;
    if has_sub(x5, pat) {
        lemma_sub_left(x5, s6, pat);
    } else if has_sub(s6, pat) {
        lemma_sub_right(x5, s6, pat);
    }
}

/// The rendered plan lists every task of the plan as its own item
/// `- [ ] <text> <!-- <source ref> -->`: each overdue, due-today,
/// scheduled-today, waiting and inbox task, and each task of each project
/// group.
pub proof fn law_plan_lists_every_task(p: Plan, today: Date)
    ensures
        forall|i: int|
            0 <= i < p.overdue@.len() ==> has_sub(
                render_plan_spec(p, today),
                plan_entry(#[trigger] p.overdue@[i]@),
            ),
        forall|i: int|
            0 <= i < p.due_today@.len() ==> has_sub(
                render_plan_spec(p, today),
                plan_entry(#[trigger] p.due_today@[i]@),
            ),
        forall|i: int|
            0 <= i < p.scheduled_today@.len() ==> has_sub(
                render_plan_spec(p, today),
                plan_entry(#[trigger] p.scheduled_today@[i]@),
            ),
        forall|i: int|
            0 <= i < p.waiting@.len() ==> has_sub(
                render_plan_spec(p, today),
                plan_entry(#[trigger] p.waiting@[i]@),
            ),
        forall|i: int|
            0 <= i < p.inbox@.len() ==> has_sub(
                render_plan_spec(p, today),
                plan_entry(#[trigger] p.inbox@[i]@),
            ),
        forall|g: int, i: int|
            0 <= g < p.projects@.len() && 0 <= i < p.projects@[g].tasks@.len() ==> has_sub(
                render_plan_spec(p, today),
                plan_entry(#[trigger] p.projects@[g].tasks@[i]@),
            ),
{
    let h = "## Focus Plan - "@ + today.text() + "\n"@;
    let ov = task_views(p.overdue@);
    let du = task_views(p.due_today@);
    let sc = task_views(p.scheduled_today@);
    let wa = task_views(p.waiting@);
    let ib = task_views(p.inbox@);
    let gv = group_views(p.projects@);
    let s1 = group_section("Overdue"@, ov);
    let s2 = group_section("Due Today"@, du);
    let s3 = group_section("Scheduled Today"@, sc);
    let s4 = group_section("Waiting"@, wa);
    let s5 = projects_section(gv);
    let s6 = group_section("Inbox"@, ib);
    let x = h + s1 + s2 + s3 + s4 + s5 + s6;
    assert(render_plan_spec(p, today) == trim_end(x));
    assert forall|t: TaskView| has_sub(x, plan_entry(t)) implies has_sub(
        trim_end(x),
        plan_entry(t),
    ) by {
        lemma_entry_shapes(t);
        lemma_sub_trim(x, plan_entry(t));
    }
    assert forall|i: int| 0 <= i < p.overdue@.len() implies has_sub(
        render_plan_spec(p, today),
        plan_entry(#[trigger] p.overdue@[i]@),
    ) by {
        assert(ov[i] == p.overdue@[i]@);
        lemma_group_holds("Overdue"@, ov, i);
        lemma_in_seven(h, s1, s2, s3, s4, s5, s6, plan_entry(ov[i]));
    }
    assert forall|i: int| 0 <= i < p.due_today@.len() implies has_sub(
        render_plan_spec(p, today),
        plan_entry(#[trigger] p.due_today@[i]@),
    ) by {
        assert(du[i] == p.due_today@[i]@);
        lemma_group_holds("Due Today"@, du, i);
        lemma_in_seven(h, s1, s2, s3, s4, s5, s6, plan_entry(du[i]));
    }
    assert forall|i: int| 0 <= i < p.scheduled_today@.len() implies has_sub(
        render_plan_spec(p, today),
        plan_entry(#[trigger] p.scheduled_today@[i]@),
    ) by {
        assert(sc[i] == p.scheduled_today@[i]@);
        lemma_group_holds("Scheduled Today"@, sc, i);
        lemma_in_seven(h, s1, s2, s3, s4, s5, s6, plan_entry(sc[i]));
    }
    assert forall|i: int| 0 <= i < p.waiting@.len() implies has_sub(
        render_plan_spec(p, today),
        plan_entry(#[trigger] p.waiting@[i]@),
    ) by {
        assert(wa[i] == p.waiting@[i]@);
        lemma_group_holds("Waiting"@, wa, i);
        lemma_in_seven(h, s1, s2, s3, s4, s5, s6, plan_entry(wa[i]));
    }
    assert forall|i: int| 0 <= i < p.inbox@.len() implies has_sub(
        render_plan_spec(p, today),
        plan_entry(#[trigger] p.inbox@[i]@),
    ) by {
        assert(ib[i] == p.inbox@[i]@);
        lemma_group_holds("Inbox"@, ib, i);
        lemma_in_seven(h, s1, s2, s3, s4, s5, s6, plan_entry(ib[i]));
    }
    assert forall|g: int, i: int|
        0 <= g < p.projects@.len() && 0 <= i < p.projects@[g].tasks@.len() implies has_sub(
        render_plan_spec(p, today),
        plan_entry(#[trigger] p.projects@[g].tasks@[i]@),
    ) by {
        assert(gv[g] == (p.projects@[g].name@, task_views(p.projects@[g].tasks@)));
        assert(gv[g].1[i] == p.projects@[g].tasks@[i]@);
        lemma_sections_hold(gv, g, i);
        lemma_sub_right("\n### Projects\n"@, project_sections(gv), plan_entry(gv[g].1[i]));
        lemma_in_seven(h, s1, s2, s3, s4, s5, s6, plan_entry(gv[g].1[i]));
    }
}

/// The rendered waiting ledger lists every task of every person's group as
/// its own item `- [ ] <text> <!-- <source ref> -->`.
pub proof fn law_ledger_lists_every_task(l: WaitingLedger, today: Date)
    ensures
        forall|g: int, i: int|
            0 <= g < l.groups@.len() && 0 <= i < l.groups@[g].tasks@.len() ==> has_sub(
                render_ledger_spec(l, today),
                plan_entry(#[trigger] l.groups@[g].tasks@[i]@),
            ),
{
    let h = "## Waiting Ledger - "@ + today.text() + "\n"@;
    let gv = group_views(l.groups@);
    assert forall|g: int, i: int|
        0 <= g < l.groups@.len() && 0 <= i < l.groups@[g].tasks@.len() implies has_sub(
        render_ledger_spec(l, today),
        plan_entry(#[trigger] l.groups@[g].tasks@[i]@),
    ) by {
        let t = l.groups@[g].tasks@[i]@;
        assert(gv[g] == (l.groups@[g].name@, task_views(l.groups@[g].tasks@)));
        assert(gv[g].1[i] == t);
        lemma_sections_hold(gv, g, i);
        lemma_sub_right(h, ledger_sections(gv), plan_entry(t));
        lemma_entry_shapes(t);
        lemma_sub_trim(h + ledger_sections(gv), plan_entry(t));
    }
}

/// A project report lists every open task of the project as its own item
/// `- <text> (<source ref>)`.
pub proof fn law_project_report_lists_every_task(s: ProjectSummary)
    ensures
        forall|i: int|
            0 <= i < s.open@.len() ==> has_sub(
                render_project_spec(s),
                report_entry(#[trigger] s.open@[i]@),
            ),
{
    let ts = task_views(s.open@);
    assert forall|i: int| 0 <= i < s.open@.len() implies has_sub(
        render_project_spec(s),
        report_entry(#[trigger] s.open@[i]@),
    ) by {
        let t = s.open@[i]@;
        assert(ts[i] == t);
        lemma_items_hold(ts, i);
        let head = s.name@ + "\nOpen: "@ + crate::date::decimal(s.open@.len()) + "\nOverdue: "@
            + crate::date::decimal(s.overdue@.len()) + "\nDue soon: "@ + crate::date::decimal(
            s.due_soon@.len(),
        ) + "\nWaiting: "@ + crate::date::decimal(s.waiting@.len()) + "\n"@ + "\nTasks\n"@;
        lemma_sub_right(head, project_task_items(ts), report_entry(t));
        lemma_entry_shapes(t);
        lemma_sub_trim(head + project_task_items(ts), report_entry(t));
        assert(render_project_spec(s) == trim_end(head + project_task_items(ts)));
    }
}

} // verus!
