//! Laws of the views built from scanned tasks: the daily plan, the waiting
//! ledger and the reminders hold open tasks of the scan only, each where
//! its rule puts it.
use vstd::prelude::*;
use crate::date::Date;
use crate::groups::{group_views, is_grouping, tasks_with_key, TaskGroup};
use crate::notifications::{candidates_spec, reminder_title};
use crate::planner::{bucket, in_bucket, is_plan_for, project_entries, Bucket, Plan};
use crate::task::{task_views, Task, TaskView};
use crate::waiting::{ledger_count, ledger_entries, ledger_key, WaitingLedger};
use crate::review::count_where;
use crate::groups::{groups_have_key, has_key, lemma_seq_lt_irreflexive, lemma_tasks_with_key_push, seq_lt};
use crate::projects::{due_soon, is_due_soon, is_summary_for, summary_groups, ProjectSummary};

verus! {

/// The members of a bucket are the tasks that meet its rule, in order.
pub proof fn lemma_bucket_members(ts: Seq<TaskView>, b: Bucket, today: Date)
    ensures
        forall|i: int|
            0 <= i < bucket(ts, b, today).len() ==> in_bucket(#[trigger] bucket(ts, b, today)[i], b, today)
                && ts.contains(bucket(ts, b, today)[i]),
        forall|j: int|
            0 <= j < ts.len() && in_bucket(#[trigger] ts[j], b, today) ==> bucket(ts, b, today).contains(ts[j]),
    decreases ts.len(),
{
    if ts.len() > 0 {
        let pre = ts.drop_last();
        lemma_bucket_members(pre, b, today);
        let bp = bucket(pre, b, today);
        let bt = bucket(ts, b, today);
        assert forall|i: int| 0 <= i < bt.len() implies in_bucket(#[trigger] bt[i], b, today)
            && ts.contains(bt[i]) by {
            if i < bp.len() {
                assert(bt[i] == bp[i]);
                let k = choose|k: int| 0 <= k < pre.len() && pre[k] == bp[i];
                assert(ts[k] == pre[k]);
            } else {
                assert(bt[i] == ts.last());
                assert(ts[ts.len() - 1] == ts.last());
            }
        }
        assert forall|j: int| 0 <= j < ts.len() && in_bucket(#[trigger] ts[j], b, today) implies bt.contains(
            ts[j],
        ) by {
            if j < ts.len() - 1 {
                assert(pre[j] == ts[j]);
                let k = choose|k: int| 0 <= k < bp.len() && bp[k] == pre[j];
                assert(bt[k] == bp[k]);
            } else {
                assert(bt[bt.len() - 1] == ts.last());
            }
        }
    }
}

/// What a key's task list holds: entries filed under that key, in order.
pub proof fn lemma_tasks_with_key_members(es: Seq<(Seq<char>, TaskView)>, k: Seq<char>)
    ensures
        forall|i: int|
            0 <= i < tasks_with_key(es, k).len() ==> es.contains((k, #[trigger] tasks_with_key(es, k)[i])),
    decreases es.len(),
{
    if es.len() > 0 {
        let pre = es.drop_last();
        lemma_tasks_with_key_members(pre, k);
        let tp = tasks_with_key(pre, k);
        let tk = tasks_with_key(es, k);
        assert forall|i: int| 0 <= i < tk.len() implies es.contains((k, #[trigger] tk[i])) by {
            if i < tp.len() {
                assert(tk[i] == tp[i]);
                let m = choose|m: int| 0 <= m < pre.len() && pre[m] == (k, tp[i]);
                assert(es[m] == pre[m]);
            } else {
                assert(tk[i] == es.last().1);
                assert(es[es.len() - 1] == (k, tk[i]));
            }
        }
    }
}

/// Project entries are open tasks of the scan, filed under their project.
pub proof fn lemma_project_entries_members(ts: Seq<TaskView>)
    ensures
        forall|i: int|
            0 <= i < project_entries(ts).len() ==> {
                let e = #[trigger] project_entries(ts)[i];
                &&& e.1.is_open()
                &&& e.1.project == Some(e.0)
                &&& ts.contains(e.1)
            },
    decreases ts.len(),
{
    if ts.len() > 0 {
        let pre = ts.drop_last();
        lemma_project_entries_members(pre);
        let ep = project_entries(pre);
        let et = project_entries(ts);
        assert forall|i: int| 0 <= i < et.len() implies {
            let e = #[trigger] et[i];
            &&& e.1.is_open()
            &&& e.1.project == Some(e.0)
            &&& ts.contains(e.1)
        } by {
            if i < ep.len() {
                assert(et[i] == ep[i]);
                let k = choose|k: int| 0 <= k < pre.len() && pre[k] == ep[i].1;
                assert(ts[k] == pre[k]);
            } else {
                assert(ts[ts.len() - 1] == ts.last());
            }
        }
    }
}

/// Ledger entries are open waiting tasks of the scan, filed under their
/// person (or `Unassigned`).
pub proof fn lemma_ledger_entries_members(ts: Seq<TaskView>)
    ensures
        forall|i: int|
            0 <= i < ledger_entries(ts).len() ==> {
                let e = #[trigger] ledger_entries(ts)[i];
                &&& e.1.is_open()
                &&& e.1.is_waiting()
                &&& e.0 == ledger_key(e.1)
                &&& ts.contains(e.1)
            },
    decreases ts.len(),
{
    if ts.len() > 0 {
        let pre = ts.drop_last();
        lemma_ledger_entries_members(pre);
        let ep = ledger_entries(pre);
        let et = ledger_entries(ts);
        assert forall|i: int| 0 <= i < et.len() implies {
            let e = #[trigger] et[i];
            &&& e.1.is_open()
            &&& e.1.is_waiting()
            &&& e.0 == ledger_key(e.1)
            &&& ts.contains(e.1)
        } by {
            if i < ep.len() {
                assert(et[i] == ep[i]);
                let k = choose|k: int| 0 <= k < pre.len() && pre[k] == ep[i].1;
                assert(ts[k] == pre[k]);
            } else {
                assert(ts[ts.len() - 1] == ts.last());
            }
        }
    }
}

proof fn lemma_bucket_vec(v: Seq<Task>, ts: Seq<TaskView>, b: Bucket, today: Date)
    requires
        task_views(v) == bucket(ts, b, today),
    ensures
        forall|i: int| 0 <= i < v.len() ==> in_bucket(#[trigger] v[i]@, b, today) && ts.contains(v[i]@),
        forall|j: int|
            0 <= j < ts.len() && in_bucket(#[trigger] ts[j], b, today) ==> task_views(v).contains(ts[j]),
{
    lemma_bucket_members(ts, b, today);
    assert forall|i: int| 0 <= i < v.len() implies in_bucket(#[trigger] v[i]@, b, today) && ts.contains(
        v[i]@,
    ) by {
        assert(task_views(v)[i] == v[i]@);
    }
}

/// The daily plan holds exactly the open tasks that meet each bucket's
/// rule: every task in a bucket is a scanned task that meets the rule (so
/// it is open: overdue ones are due before today, due-today ones due
/// today, and so on), and every scanned task that meets a rule is in that
/// bucket. Every task in a project group is an open scanned task of that
/// project.
pub proof fn law_plan_buckets(p: Plan, ts: Seq<TaskView>, today: Date)
    requires
        is_plan_for(p, ts, today),
    ensures
        forall|i: int|
            0 <= i < p.overdue@.len() ==> in_bucket(#[trigger] p.overdue@[i]@, Bucket::Overdue, today)
                && ts.contains(p.overdue@[i]@),
        forall|i: int|
            0 <= i < p.due_today@.len() ==> in_bucket(#[trigger] p.due_today@[i]@, Bucket::DueToday, today)
                && ts.contains(p.due_today@[i]@),
        forall|i: int|
            0 <= i < p.scheduled_today@.len() ==> in_bucket(
                #[trigger] p.scheduled_today@[i]@,
                Bucket::ScheduledToday,
                today,
            ) && ts.contains(p.scheduled_today@[i]@),
        forall|i: int|
            0 <= i < p.waiting@.len() ==> in_bucket(#[trigger] p.waiting@[i]@, Bucket::Waiting, today)
                && ts.contains(p.waiting@[i]@),
        forall|i: int|
            0 <= i < p.inbox@.len() ==> in_bucket(#[trigger] p.inbox@[i]@, Bucket::Inbox, today)
                && ts.contains(p.inbox@[i]@),
        forall|j: int|
            0 <= j < ts.len() && in_bucket(#[trigger] ts[j], Bucket::Overdue, today) ==> task_views(
                p.overdue@,
            ).contains(ts[j]),
        forall|j: int|
            0 <= j < ts.len() && in_bucket(#[trigger] ts[j], Bucket::DueToday, today) ==> task_views(
                p.due_today@,
            ).contains(ts[j]),
        forall|j: int|
            0 <= j < ts.len() && in_bucket(#[trigger] ts[j], Bucket::ScheduledToday, today)
                ==> task_views(p.scheduled_today@).contains(ts[j]),
        forall|j: int|
            0 <= j < ts.len() && in_bucket(#[trigger] ts[j], Bucket::Waiting, today) ==> task_views(
                p.waiting@,
            ).contains(ts[j]),
        forall|j: int|
            0 <= j < ts.len() && in_bucket(#[trigger] ts[j], Bucket::Inbox, today) ==> task_views(
                p.inbox@,
            ).contains(ts[j]),
        forall|g: int, i: int|
            0 <= g < p.projects@.len() && 0 <= i < p.projects@[g].tasks@.len() ==> {
                let t = #[trigger] p.projects@[g].tasks@[i]@;
                &&& t.is_open()
                &&& t.project == Some(p.projects@[g].name@)
                &&& ts.contains(t)
            },
{
    lemma_bucket_vec(p.overdue@, ts, Bucket::Overdue, today);
    lemma_bucket_vec(p.due_today@, ts, Bucket::DueToday, today);
    lemma_bucket_vec(p.scheduled_today@, ts, Bucket::ScheduledToday, today);
    lemma_bucket_vec(p.waiting@, ts, Bucket::Waiting, today);
    lemma_bucket_vec(p.inbox@, ts, Bucket::Inbox, today);
    lemma_grouped_members(p.projects@, project_entries(ts));
    lemma_project_entries_members(ts);
    let es = project_entries(ts);
    assert forall|g: int, i: int|
        0 <= g < p.projects@.len() && 0 <= i < p.projects@[g].tasks@.len() implies {
        let t = #[trigger] p.projects@[g].tasks@[i]@;
        &&& t.is_open()
        &&& t.project == Some(p.projects@[g].name@)
        &&& ts.contains(t)
    } by {
        let t = p.projects@[g].tasks@[i]@;
        let m = choose|m: int| 0 <= m < es.len() && es[m] == (p.projects@[g].name@, t);
        assert(es[m].1 == t);
    }
}

/// Grouped tasks are entries filed under their group's key.
pub proof fn lemma_grouped_members(gs: Seq<TaskGroup>, es: Seq<(Seq<char>, TaskView)>)
    requires
        is_grouping(group_views(gs), es),
    ensures
        forall|g: int, i: int|
            0 <= g < gs.len() && 0 <= i < gs[g].tasks@.len() ==> es.contains(
                (gs[g].name@, #[trigger] gs[g].tasks@[i]@),
            ),
{
    assert forall|g: int, i: int| 0 <= g < gs.len() && 0 <= i < gs[g].tasks@.len() implies es.contains(
        (gs[g].name@, #[trigger] gs[g].tasks@[i]@),
    ) by {
        let gv = group_views(gs);
        assert(gv[g] == (gs[g].name@, task_views(gs[g].tasks@)));
        assert(gv[g].1 == tasks_with_key(es, gv[g].0));
        lemma_tasks_with_key_members(es, gs[g].name@);
        assert(task_views(gs[g].tasks@)[i] == gs[g].tasks@[i]@);
    }
}

/// The waiting ledger files each open waiting task of the scan under its
/// person (`Unassigned` when it names none): every listed task is one, and
/// sits under the name of its group.
pub proof fn law_ledger_groups(l: WaitingLedger, ts: Seq<TaskView>)
    requires
        is_grouping(group_views(l.groups@), ledger_entries(ts)),
    ensures
        forall|g: int, i: int|
            0 <= g < l.groups@.len() && 0 <= i < l.groups@[g].tasks@.len() ==> {
                let t = #[trigger] l.groups@[g].tasks@[i]@;
                &&& t.is_open()
                &&& t.is_waiting()
                &&& ledger_key(t) == l.groups@[g].name@
                &&& ts.contains(t)
            },
{
    lemma_grouped_members(l.groups@, ledger_entries(ts));
    lemma_ledger_entries_members(ts);
    let es = ledger_entries(ts);
    assert forall|g: int, i: int| 0 <= g < l.groups@.len() && 0 <= i < l.groups@[g].tasks@.len() implies {
        let t = #[trigger] l.groups@[g].tasks@[i]@;
        &&& t.is_open()
        &&& t.is_waiting()
        &&& ledger_key(t) == l.groups@[g].name@
        &&& ts.contains(t)
    } by {
        let t = l.groups@[g].tasks@[i]@;
        let m = choose|m: int| 0 <= m < es.len() && es[m] == (l.groups@[g].name@, t);
        assert(es[m].1 == t);
    }
}

/// The reminder is the one that an open task calls for on `today`.
pub open spec fn reminder_for(c: (Seq<char>, Seq<char>), t: TaskView, today: Date) -> bool {
    t.is_open() && reminder_title(t, today) == Some(c.0) && c.1 == t.text
}

/// The task that the reminder at `i` comes from.
proof fn lemma_reminder_source(ts: Seq<TaskView>, today: Date, i: int) -> (j: int)
    requires
        0 <= i < candidates_spec(ts, today).len(),
    ensures
        0 <= j < ts.len(),
        reminder_for(candidates_spec(ts, today)[i], ts[j], today),
    decreases ts.len(),
{
    let pre = ts.drop_last();
    let cp = candidates_spec(pre, today);
    let ct = candidates_spec(ts, today);
    if i < cp.len() {
        assert(ct[i] == cp[i]);
        let j = lemma_reminder_source(pre, today, i);
        assert(ts[j] == pre[j]);
        j
    } else {
        let j = ts.len() - 1;
        assert(ts[j] == ts.last());
        j
    }
}

/// Some open task of `ts` calls for the reminder on `today`.
pub open spec fn has_source(c: (Seq<char>, Seq<char>), ts: Seq<TaskView>, today: Date) -> bool {
    exists|j: int| 0 <= j < ts.len() && #[trigger] reminder_for(c, ts[j], today)
}

/// Reminders come from open tasks only: each reminder is the title that a
/// scanned open task calls for on `today`, with that task's text.
pub proof fn law_reminders_from_open_tasks(ts: Seq<TaskView>, today: Date)
    ensures
        forall|i: int|
            0 <= i < candidates_spec(ts, today).len() ==> has_source(
                #[trigger] candidates_spec(ts, today)[i],
                ts,
                today,
            ),
{
    assert forall|i: int| 0 <= i < candidates_spec(ts, today).len() implies has_source(
        #[trigger] candidates_spec(ts, today)[i],
        ts,
        today,
    ) by {
        let j = lemma_reminder_source(ts, today, i);
        assert(reminder_for(candidates_spec(ts, today)[i], ts[j], today));
    }
}

pub proof fn lemma_bucket_len(ts: Seq<TaskView>, b: Bucket, today: Date)
    ensures
        bucket(ts, b, today).len() <= ts.len(),
    decreases ts.len(),
{
    if ts.len() > 0 {
        lemma_bucket_len(ts.drop_last(), b, today);
    }
}

pub proof fn lemma_due_soon_members(ts: Seq<TaskView>, today: Date, horizon: Date)
    ensures
        due_soon(ts, today, horizon).len() <= ts.len(),
        forall|i: int|
            0 <= i < due_soon(ts, today, horizon).len() ==> is_due_soon(
                #[trigger] due_soon(ts, today, horizon)[i],
                today,
                horizon,
            ),
    decreases ts.len(),
{
    if ts.len() > 0 {
        lemma_due_soon_members(ts.drop_last(), today, horizon);
        let dp = due_soon(ts.drop_last(), today, horizon);
        let dt = due_soon(ts, today, horizon);
        assert forall|i: int| 0 <= i < dt.len() implies is_due_soon(#[trigger] dt[i], today, horizon) by {
            if i < dp.len() {
                assert(dt[i] == dp[i]);
            }
        }
    }
}

/// Each project summary lists open tasks of the scan that carry its
/// project; its overdue, due-soon and waiting lists are drawn from them,
/// so their counts never exceed the open count, and each of their tasks
/// is overdue, due between today and the horizon, or waiting.
pub proof fn law_project_summaries(ss: Seq<ProjectSummary>, ts: Seq<TaskView>, today: Date, horizon: Date)
    requires
        is_summary_for(ss, ts, today, horizon),
    ensures
        forall|k: int|
            0 <= k < ss.len() ==> {
                let s = #[trigger] ss[k];
                &&& s.overdue@.len() <= s.open@.len()
                &&& s.due_soon@.len() <= s.open@.len()
                &&& s.waiting@.len() <= s.open@.len()
                &&& forall|i: int|
                    0 <= i < s.open@.len() ==> {
                        let t = #[trigger] s.open@[i]@;
                        &&& t.is_open()
                        &&& t.project == Some(s.name@)
                        &&& ts.contains(t)
                    }
                &&& forall|i: int|
                    0 <= i < s.overdue@.len() ==> in_bucket(#[trigger] s.overdue@[i]@, Bucket::Overdue, today)
                &&& forall|i: int|
                    0 <= i < s.due_soon@.len() ==> is_due_soon(#[trigger] s.due_soon@[i]@, today, horizon)
                &&& forall|i: int|
                    0 <= i < s.waiting@.len() ==> in_bucket(#[trigger] s.waiting@[i]@, Bucket::Waiting, today)
            },
{
    let es = project_entries(ts);
    lemma_project_entries_members(ts);
    assert forall|k: int| 0 <= k < ss.len() implies {
        let s = #[trigger] ss[k];
        &&& s.overdue@.len() <= s.open@.len()
        &&& s.due_soon@.len() <= s.open@.len()
        &&& s.waiting@.len() <= s.open@.len()
        &&& forall|i: int|
            0 <= i < s.open@.len() ==> {
                let t = #[trigger] s.open@[i]@;
                &&& t.is_open()
                &&& t.project == Some(s.name@)
                &&& ts.contains(t)
            }
        &&& forall|i: int|
            0 <= i < s.overdue@.len() ==> in_bucket(#[trigger] s.overdue@[i]@, Bucket::Overdue, today)
        &&& forall|i: int|
            0 <= i < s.due_soon@.len() ==> is_due_soon(#[trigger] s.due_soon@[i]@, today, horizon)
        &&& forall|i: int|
            0 <= i < s.waiting@.len() ==> in_bucket(#[trigger] s.waiting@[i]@, Bucket::Waiting, today)
    } by {
        let s = ss[k];
        let o = task_views(s.open@);
        let g = summary_groups(ss);
        assert(g[k] == (s.name@, o));
        assert(g[k].1 == tasks_with_key(es, g[k].0));
        assert(o == tasks_with_key(es, s.name@));
        lemma_tasks_with_key_members(es, s.name@);
        lemma_bucket_len(o, Bucket::Overdue, today);
        lemma_bucket_len(o, Bucket::Waiting, today);
        lemma_bucket_members(o, Bucket::Overdue, today);
        lemma_bucket_members(o, Bucket::Waiting, today);
        lemma_due_soon_members(o, today, horizon);
        assert forall|i: int| 0 <= i < s.open@.len() implies {
            let t = #[trigger] s.open@[i]@;
            &&& t.is_open()
            &&& t.project == Some(s.name@)
            &&& ts.contains(t)
        } by {
            assert(o[i] == s.open@[i]@);
            let m = choose|m: int| 0 <= m < es.len() && es[m] == (s.name@, o[i]);
            assert(es[m].1 == o[i]);
        }
        assert forall|i: int| 0 <= i < s.overdue@.len() implies in_bucket(
            #[trigger] s.overdue@[i]@,
            Bucket::Overdue,
            today,
        ) by {
            assert(task_views(s.overdue@)[i] == s.overdue@[i]@);
        }
        assert forall|i: int| 0 <= i < s.due_soon@.len() implies is_due_soon(
            #[trigger] s.due_soon@[i]@,
            today,
            horizon,
        ) by {
            assert(task_views(s.due_soon@)[i] == s.due_soon@[i]@);
        }
        assert forall|i: int| 0 <= i < s.waiting@.len() implies in_bucket(
            #[trigger] s.waiting@[i]@,
            Bucket::Waiting,
            today,
        ) by {
            assert(task_views(s.waiting@)[i] == s.waiting@[i]@);
        }
    }
}

/// Number of entries filed under the keys, key by key.
pub open spec fn filed_count(es: Seq<(Seq<char>, TaskView)>, keys: Seq<Seq<char>>) -> nat
    decreases keys.len(),
{
    if keys.len() == 0 {
        0
    } else {
        filed_count(es, keys.drop_last()) + tasks_with_key(es, keys.last()).len()
    }
}

/// How often a key occurs among the keys.
pub open spec fn occurrences(keys: Seq<Seq<char>>, k: Seq<char>) -> nat
    decreases keys.len(),
{
    if keys.len() == 0 {
        0
    } else {
        occurrences(keys.drop_last(), k) + if keys.last() == k {
            1nat
        } else {
            0nat
        }
    }
}

proof fn lemma_filed_count_push(
    es: Seq<(Seq<char>, TaskView)>,
    e: (Seq<char>, TaskView),
    keys: Seq<Seq<char>>,
)
    ensures
        filed_count(es.push(e), keys) == filed_count(es, keys) + occurrences(keys, e.0),
    decreases keys.len(),
{
    if keys.len() > 0 {
        lemma_filed_count_push(es, e, keys.drop_last());
        lemma_tasks_with_key_push(es, e, keys.last());
    }
}

/// A key that occurs once among distinct keys.
proof fn lemma_occurs_once(keys: Seq<Seq<char>>, k: Seq<char>)
    requires
        forall|i: int, j: int| 0 <= i < j < keys.len() ==> keys[i] != keys[j],
        keys.contains(k),
    ensures
        occurrences(keys, k) == 1,
    decreases keys.len(),
{
    let pre = keys.drop_last();
    assert forall|i: int, j: int| 0 <= i < j < pre.len() implies pre[i] != pre[j] by {
        assert(pre[i] == keys[i] && pre[j] == keys[j]);
    }
    if keys.last() == k {
        assert(!pre.contains(k)) by {
            if pre.contains(k) {
                let i = choose|i: int| 0 <= i < pre.len() && pre[i] == k;
                assert(keys[i] == keys[keys.len() - 1]);
            }
        }
        lemma_occurs_none(pre, k);
    } else {
        let i = choose|i: int| 0 <= i < keys.len() && keys[i] == k;
        assert(pre[i] == k);
        lemma_occurs_once(pre, k);
    }
}

proof fn lemma_occurs_none(keys: Seq<Seq<char>>, k: Seq<char>)
    requires
        !keys.contains(k),
    ensures
        occurrences(keys, k) == 0,
    decreases keys.len(),
{
    if keys.len() > 0 {
        assert(!keys.drop_last().contains(k)) by {
            if keys.drop_last().contains(k) {
                let i = choose|i: int| 0 <= i < keys.len() - 1 && keys.drop_last()[i] == k;
                assert(keys[i] == k);
            }
        }
        assert(keys[keys.len() - 1] == keys.last());
        lemma_occurs_none(keys.drop_last(), k);
    }
}

/// Entries whose keys are all among distinct keys are each filed once.
proof fn lemma_filed_count_all(es: Seq<(Seq<char>, TaskView)>, keys: Seq<Seq<char>>)
    requires
        forall|i: int, j: int| 0 <= i < j < keys.len() ==> keys[i] != keys[j],
        forall|m: int| 0 <= m < es.len() ==> keys.contains(#[trigger] es[m].0),
    ensures
        filed_count(es, keys) == es.len(),
    decreases es.len(),
{
    if es.len() == 0 {
        lemma_filed_count_empty(es, keys);
    } else {
        let pre = es.drop_last();
        assert forall|m: int| 0 <= m < pre.len() implies keys.contains(#[trigger] pre[m].0) by {
            assert(pre[m] == es[m]);
        }
        lemma_filed_count_all(pre, keys);
        assert(es == pre.push(es.last()));
        lemma_filed_count_push(pre, es.last(), keys);
        assert(es[es.len() - 1] == es.last());
        lemma_occurs_once(keys, es.last().0);
    }
}

proof fn lemma_filed_count_empty(es: Seq<(Seq<char>, TaskView)>, keys: Seq<Seq<char>>)
    requires
        es.len() == 0,
    ensures
        filed_count(es, keys) == 0,
    decreases keys.len(),
{
    if keys.len() > 0 {
        lemma_filed_count_empty(es, keys.drop_last());
    }
}

/// The groups' task counts, summed, are the entries filed under their names.
proof fn lemma_ledger_count_filed(gs: Seq<TaskGroup>, es: Seq<(Seq<char>, TaskView)>)
    requires
        forall|i: int| 0 <= i < gs.len() ==> task_views(#[trigger] gs[i].tasks@) == tasks_with_key(es, gs[i].name@),
    ensures
        ledger_count(gs) == filed_count(es, gs.map_values(|g: TaskGroup| g.name@)),
    decreases gs.len(),
{
    let keys = gs.map_values(|g: TaskGroup| g.name@);
    if gs.len() > 0 {
        let pre = gs.drop_last();
        assert forall|i: int| 0 <= i < pre.len() implies task_views(#[trigger] pre[i].tasks@)
            == tasks_with_key(es, pre[i].name@) by {
            assert(pre[i] == gs[i]);
        }
        lemma_ledger_count_filed(pre, es);
        assert(keys.drop_last() =~= pre.map_values(|g: TaskGroup| g.name@));
        assert(gs[gs.len() - 1] == gs.last());
        assert(keys.last() == gs.last().name@);
        assert(task_views(gs.last().tasks@).len() == gs.last().tasks@.len());
    } else {
        assert(keys.len() == 0);
    }
}

/// Entries filed under a key are counted once.
proof fn lemma_entries_len_count(ts: Seq<TaskView>, today: Date)
    ensures
        ledger_entries(ts).len() == count_where(ts, 2, today),
    decreases ts.len(),
{
    if ts.len() > 0 {
        lemma_entries_len_count(ts.drop_last(), today);
    }
}

/// The waiting ledger counts what the review counts as waiting: its
/// groups hold, together, exactly as many tasks as there are open waiting
/// tasks in the scan.
pub proof fn law_ledger_count_matches_review(l: WaitingLedger, ts: Seq<TaskView>, today: Date)
    requires
        is_grouping(group_views(l.groups@), ledger_entries(ts)),
    ensures
        ledger_count(l.groups@) == count_where(ts, 2, today),
{
    let gs = l.groups@;
    let es = ledger_entries(ts);
    let gv = group_views(gs);
    let keys = gs.map_values(|g: TaskGroup| g.name@);
    assert forall|i: int| 0 <= i < gs.len() implies task_views(#[trigger] gs[i].tasks@)
        == tasks_with_key(es, gs[i].name@) by {
        assert(gv[i] == (gs[i].name@, task_views(gs[i].tasks@)));
        assert(gv[i].1 == tasks_with_key(es, gv[i].0));
    }
    lemma_ledger_count_filed(gs, es);
    assert forall|i: int, j: int| 0 <= i < j < keys.len() implies keys[i] != keys[j] by {
        assert(gv[i].0 == keys[i] && gv[j].0 == keys[j]);
        assert(seq_lt(gv[i].0, gv[j].0));
        if keys[i] == keys[j] {
            lemma_seq_lt_irreflexive(keys[i]);
        }
    }
    assert forall|m: int| 0 <= m < es.len() implies keys.contains(#[trigger] es[m].0) by {
        assert(has_key(es, es[m].0));
        assert(groups_have_key(gv, es[m].0));
        let i = choose|i: int| 0 <= i < gv.len() && #[trigger] gv[i].0 == es[m].0;
        assert(keys[i] == gv[i].0);
    }
    lemma_filed_count_all(es, keys);
    lemma_entries_len_count(ts, today);
}

/// An entry's task is listed under its key.
pub proof fn lemma_tasks_with_key_complete(es: Seq<(Seq<char>, TaskView)>, m: int)
    requires
        0 <= m < es.len(),
    ensures
        tasks_with_key(es, es[m].0).contains(es[m].1),
    decreases es.len(),
{
    let k = es[m].0;
    let pre = es.drop_last();
    if m == es.len() - 1 {
        let tk = tasks_with_key(es, k);
        assert(tk[tk.len() - 1] == es[m].1);
    } else {
        assert(pre[m] == es[m]);
        lemma_tasks_with_key_complete(pre, m);
        let tp = tasks_with_key(pre, k);
        let i = choose|i: int| 0 <= i < tp.len() && tp[i] == es[m].1;
        assert(tasks_with_key(es, k)[i] == tp[i]);
    }
}

/// Each open waiting task of the scan is an entry of the ledger.
proof fn lemma_ledger_entries_complete(ts: Seq<TaskView>, j: int)
    requires
        0 <= j < ts.len(),
        ts[j].is_open() && ts[j].is_waiting(),
    ensures
        ledger_entries(ts).contains((ledger_key(ts[j]), ts[j])),
    decreases ts.len(),
{
    let pre = ts.drop_last();
    let es = ledger_entries(ts);
    if j == ts.len() - 1 {
        assert(es[es.len() - 1] == (ledger_key(ts[j]), ts[j]));
    } else {
        assert(pre[j] == ts[j]);
        lemma_ledger_entries_complete(pre, j);
        let ep = ledger_entries(pre);
        let m = choose|m: int| 0 <= m < ep.len() && ep[m] == (ledger_key(ts[j]), ts[j]);
        assert(es[m] == ep[m]);
    }
}

/// The ledger leaves out no open waiting task: each is listed in the group
/// of its person (or `Unassigned`).
pub proof fn law_ledger_complete(l: WaitingLedger, ts: Seq<TaskView>, j: int)
    requires
        is_grouping(group_views(l.groups@), ledger_entries(ts)),
        0 <= j < ts.len(),
        ts[j].is_open(),
        ts[j].is_waiting(),
    ensures
        exists|g: int|
            0 <= g < l.groups@.len() && l.groups@[g].name@ == ledger_key(ts[j]) && task_views(
                #[trigger] l.groups@[g].tasks@,
            ).contains(ts[j]),
{
    let es = ledger_entries(ts);
    let gv = group_views(l.groups@);
    let k = ledger_key(ts[j]);
    lemma_ledger_entries_complete(ts, j);
    let m = choose|m: int| 0 <= m < es.len() && es[m] == (k, ts[j]);
    assert(es[m].0 == k);
    assert(has_key(es, k));
    assert(groups_have_key(gv, k));
    let g = choose|g: int| 0 <= g < gv.len() && #[trigger] gv[g].0 == k;
    assert(gv[g] == (l.groups@[g].name@, task_views(l.groups@[g].tasks@)));
    assert(gv[g].1 == tasks_with_key(es, gv[g].0));
    lemma_tasks_with_key_complete(es, m);
}

} // verus!
