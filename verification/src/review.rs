//! The end-of-day review counts and the priority argument of capture.
use vstd::prelude::*;
use crate::date::Date;
use crate::task::{priority_named, task_views, Priority, Task, TaskView};
use crate::text::{chars_of, string_of};

verus! {

/// What the review reports.
#[derive(Debug, Clone, Copy, PartialEq, Eq, Structural)]
pub struct ReviewCounts {
    /// Tasks done today.
    pub completed_today: usize,
    /// Open tasks due today or earlier.
    pub due_remaining: usize,
    /// Open waiting-on tasks.
    pub waiting: usize,
}

pub open spec fn completed_on(t: TaskView, today: Date) -> bool {
    t.is_done() && t.done == Some(today)
}

pub open spec fn due_by(t: TaskView, today: Date) -> bool {
    t.is_open() && (t.due matches Some(d) && !today.before(d))
}

pub open spec fn open_waiting(t: TaskView) -> bool {
    t.is_open() && t.is_waiting()
}

/// Number of tasks with each property: done today (0), open and due by
/// today (1), open and waiting (2).
pub open spec fn count_where(ts: Seq<TaskView>, which: int, today: Date) -> nat
    decreases ts.len(),
{
    if ts.len() == 0 {
        0
    } else {
        let t = ts.last();
        let hit = if which == 0 {
            completed_on(t, today)
        } else if which == 1 {
            due_by(t, today)
        } else {
            open_waiting(t)
        };
        count_where(ts.drop_last(), which, today) + if hit {
            1nat
        } else {
            0nat
        }
    }
}

pub proof fn lemma_count_where_bound(ts: Seq<TaskView>, which: int, today: Date)
    ensures
        count_where(ts, which, today) <= ts.len(),
    decreases ts.len(),
{
    if ts.len() > 0 {
        lemma_count_where_bound(ts.drop_last(), which, today);
    }
}

pub fn review_counts(tasks: &Vec<Task>, today: Date) -> (r: ReviewCounts)
    ensures
        r.completed_today == count_where(task_views(tasks@), 0, today),
        r.due_remaining == count_where(task_views(tasks@), 1, today),
        r.waiting == count_where(task_views(tasks@), 2, today),
{
    let ghost ts = task_views(tasks@);
    let mut r = ReviewCounts { completed_today: 0, due_remaining: 0, waiting: 0 };
    let mut i: usize = 0;
    while i < tasks.len()
        invariant
            i <= tasks.len(),
            ts == task_views(tasks@),
            r.completed_today == count_where(ts.take(i as int), 0, today),
            r.due_remaining == count_where(ts.take(i as int), 1, today),
            r.waiting == count_where(ts.take(i as int), 2, today),
        decreases tasks.len() - i,
    {
        let t = &tasks[i];
        let ghost cur = ts.take(i + 1);
        proof {
            assert(cur.drop_last() =~= ts.take(i as int));
            assert(cur.last() == t@);
            lemma_count_where_bound(ts.take(i as int), 0, today);
            lemma_count_where_bound(ts.take(i as int), 1, today);
            lemma_count_where_bound(ts.take(i as int), 2, today);
        }
        if t.is_done() && t.done == Some(today) {
            r.completed_today = r.completed_today + 1;
        }
        let open = t.is_open();
        let due_by_today = match t.due {
            Some(d) => !today.is_before(&d),
            None => false,
        };
        if open && due_by_today {
            r.due_remaining = r.due_remaining + 1;
        }
        if open && t.is_waiting() {
            r.waiting = r.waiting + 1;
        }
        i += 1;
    }
    assert(ts.take(tasks.len() as int) =~= ts);
    r
}

/// The priority named on the command line, or the message listing the names.
pub fn parse_priority(value: &str) -> (r: Result<Priority, String>)
    ensures
        match r {
            Ok(p) => priority_named(value@) == Some(p),
            Err(m) => priority_named(value@) is None
                && m@ == "expected highest, high, medium, low, or lowest"@,
        },
{
    match Priority::from_name(value) {
        Some(p) => Ok(p),
        None => Err(string_of(&chars_of("expected highest, high, medium, low, or lowest"))),
    }
}

} // verus!
