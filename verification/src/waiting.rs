//! The waiting ledger: open waiting-on tasks grouped by person.
use vstd::prelude::*;
use crate::date::Date;
use crate::groups::{group_add, group_views, is_grouping, TaskGroup};
use crate::planner::{plan_items, push_plan_items, trim_end_chars};
use crate::task::{task_views, Task, TaskView};
use crate::text::{chars_of, extend, extend_str, string_of, trim_end};

verus! {

/// Waiting-on tasks by person, in person-name order.
#[derive(Debug, Clone)]
pub struct WaitingLedger {
    pub groups: Vec<TaskGroup>,
}

/// The person a waiting task is filed under: its person, else `Unassigned`.
pub open spec fn ledger_key(t: TaskView) -> Seq<char> {
    match t.person {
        Some(p) => p,
        None => "Unassigned"@,
    }
}

/// Open waiting tasks filed under their person.
pub open spec fn ledger_entries(ts: Seq<TaskView>) -> Seq<(Seq<char>, TaskView)>
    decreases ts.len(),
{
    if ts.len() == 0 {
        seq![]
    } else {
        ledger_entries(ts.drop_last()) + if ts.last().is_open() && ts.last().is_waiting() {
            seq![(ledger_key(ts.last()), ts.last())]
        } else {
            seq![]
        }
    }
}

pub open spec fn ledger_count(gs: Seq<TaskGroup>) -> nat
    decreases gs.len(),
{
    if gs.len() == 0 {
        0
    } else {
        ledger_count(gs.drop_last()) + gs.last().tasks@.len()
    }
}

impl WaitingLedger {
    /// Number of waiting items across all people.
    pub fn count(&self) -> (r: usize)
        requires
            ledger_count(self.groups@) <= usize::MAX,
        ensures
            r == ledger_count(self.groups@),
    {
        let mut n: usize = 0;
        let mut i: usize = 0;
        while i < self.groups.len()
            invariant
                i <= self.groups.len(),
                ledger_count(self.groups@) <= usize::MAX,
                n == ledger_count(self.groups@.take(i as int)),
            decreases self.groups.len() - i,
        {
            proof {
                assert(self.groups@.take(i + 1).drop_last() =~= self.groups@.take(i as int));
                lemma_ledger_count_prefix(self.groups@, i + 1);
            }
            n = n + self.groups[i].tasks.len();
            i += 1;
        }
        assert(self.groups@.take(self.groups.len() as int) =~= self.groups@);
        n
    }
}

proof fn lemma_ledger_count_prefix(gs: Seq<TaskGroup>, k: int)
    requires
        0 <= k <= gs.len(),
    ensures
        ledger_count(gs.take(k)) <= ledger_count(gs),
    decreases gs.len() - k,
{
    if k < gs.len() {
        assert(gs.take(k) =~= gs.drop_last().take(k));
        lemma_ledger_count_prefix(gs.drop_last(), k);
    } else {
        assert(gs.take(k) =~= gs);
    }
}

/// Groups the open waiting-on tasks by person.
pub fn build_ledger(tasks: &Vec<Task>) -> (r: WaitingLedger)
    ensures
        is_grouping(group_views(r.groups@), ledger_entries(task_views(tasks@))),
{
    let ghost ts = task_views(tasks@);
    let mut gs: Vec<TaskGroup> = Vec::new();
    proof {
        assert(group_views(gs@) =~= Seq::<(Seq<char>, Seq<TaskView>)>::empty());
        assert(ts.take(0) =~= Seq::<TaskView>::empty());
    }
    let mut i: usize = 0;
    while i < tasks.len()
        invariant
            i <= tasks.len(),
            ts == task_views(tasks@),
            is_grouping(group_views(gs@), ledger_entries(ts.take(i as int))),
        decreases tasks.len() - i,
    {
        let t = &tasks[i];
        let ghost pre = ts.take(i as int);
        let ghost cur = ts.take(i + 1);
        proof {
            assert(cur.drop_last() =~= pre);
            assert(cur.last() == t@);
        }
        if t.is_open() && t.is_waiting() {
            let key = match &t.person {
                Some(p) => chars_of(p.as_str()),
                None => chars_of("Unassigned"),
            };
            let d = t.duplicate();
            group_add(&mut gs, &key, d, Ghost(ledger_entries(pre)));
            proof {
                assert(ledger_entries(cur) =~= ledger_entries(pre).push((key@, t@)));
            }
        } else {
            proof {
                assert(ledger_entries(cur) =~= ledger_entries(pre));
            }
        }
        i += 1;
    }
    proof {
        assert(ts.take(tasks.len() as int) =~= ts);
    }
    WaitingLedger { groups: gs }
}

pub open spec fn ledger_sections(gs: Seq<(Seq<char>, Seq<TaskView>)>) -> Seq<char>
    decreases gs.len(),
{
    if gs.len() == 0 {
        seq![]
    } else {
        ledger_sections(gs.drop_last()) + "\n### "@ + gs.last().0 + "\n"@ + plan_items(
            gs.last().1,
        )
    }
}

/// The ledger section body: a `### <person>` list per person, or a note
/// that nothing is waiting.
pub open spec fn render_ledger_spec(l: WaitingLedger, today: Date) -> Seq<char> {
    let head = "## Waiting Ledger - "@ + today.text() + "\n"@;
    if l.groups@.len() == 0 {
        trim_end(head + "\nNo waiting-on items.\n"@)
    } else {
        trim_end(head + ledger_sections(group_views(l.groups@)))
    }
}

pub fn render_ledger(ledger: &WaitingLedger, today: Date) -> (r: String)
    requires
        today.wf(),
    ensures
        r@ == render_ledger_spec(*ledger, today),
{
    let mut out = chars_of("## Waiting Ledger - ");
    let t = today.text_chars();
    extend(&mut out, &t);
    extend_str(&mut out, "\n");
    if ledger.groups.len() == 0 {
        extend_str(&mut out, "\nNo waiting-on items.\n");
        return string_of(&trim_end_chars(&out));
    }
    let ghost base = out@;
    let ghost gv = group_views(ledger.groups@);
    let mut i: usize = 0;
    while i < ledger.groups.len()
        invariant
            i <= ledger.groups.len(),
            gv == group_views(ledger.groups@),
            out@ == base + ledger_sections(gv.take(i as int)),
        decreases ledger.groups.len() - i,
    {
        let g = &ledger.groups[i];
        extend_str(&mut out, "\n### ");
        extend_str(&mut out, g.name.as_str());
        extend_str(&mut out, "\n");
        push_plan_items(&mut out, &g.tasks);
        proof {
            let cur = gv.take(i + 1);
            assert(cur.drop_last() =~= gv.take(i as int));
            assert(cur.last() == (g.name@, task_views(g.tasks@)));
            assert(out@ =~= base + ledger_sections(cur));
        }
        i += 1;
    }
    assert(gv.take(ledger.groups.len() as int) =~= gv);
    string_of(&trim_end_chars(&out))
}

} // verus!
