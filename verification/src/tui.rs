//! The daily command center's state and key handling. Drawing the screen
//! and reading keys is left to the caller, which performs the action that
//! each key yields.
use vstd::prelude::*;
use crate::date::{add_days, next_day, Date};
use crate::groups::TaskGroup;
use crate::planner::Plan;
use crate::task::{task_views, Task, TaskView};
use crate::vault::LineEdit;

verus! {

#[derive(Debug, Clone, Copy, PartialEq, Eq, Structural)]
pub enum Section {
    Inbox,
    Today,
    Overdue,
    Scheduled,
    Waiting,
    Projects,
}

/// Position of a section in the cycle Inbox, Today, Overdue, Scheduled,
/// Waiting, Projects.
pub open spec fn section_index(s: Section) -> int {
    match s {
        Section::Inbox => 0,
        Section::Today => 1,
        Section::Overdue => 2,
        Section::Scheduled => 3,
        Section::Waiting => 4,
        Section::Projects => 5,
    }
}

pub open spec fn section_at(i: int) -> Section {
    if i == 0 {
        Section::Inbox
    } else if i == 1 {
        Section::Today
    } else if i == 2 {
        Section::Overdue
    } else if i == 3 {
        Section::Scheduled
    } else if i == 4 {
        Section::Waiting
    } else {
        Section::Projects
    }
}

pub open spec fn section_title(s: Section) -> Seq<char> {
    match s {
        Section::Inbox => "Inbox"@,
        Section::Today => "Today"@,
        Section::Overdue => "Overdue"@,
        Section::Scheduled => "Scheduled"@,
        Section::Waiting => "Waiting"@,
        Section::Projects => "Projects"@,
    }
}

impl Section {
    /// All sections, in cycle order.
    pub fn all() -> (r: [Section; 6])
        ensures
            forall|i: int| 0 <= i < 6 ==> #[trigger] r@[i] == section_at(i),
    {
        [
            Section::Inbox,
            Section::Today,
            Section::Overdue,
            Section::Scheduled,
            Section::Waiting,
            Section::Projects,
        ]
    }

    pub fn title(self) -> (r: &'static str)
        ensures
            r@ == section_title(self),
    {
        match self {
            Section::Inbox => "Inbox",
            Section::Today => "Today",
            Section::Overdue => "Overdue",
            Section::Scheduled => "Scheduled",
            Section::Waiting => "Waiting",
            Section::Projects => "Projects",
        }
    }

    fn index(self) -> (r: usize)
        ensures
            r == section_index(self),
    {
        match self {
            Section::Inbox => 0,
            Section::Today => 1,
            Section::Overdue => 2,
            Section::Scheduled => 3,
            Section::Waiting => 4,
            Section::Projects => 5,
        }
    }
}

/// The section that tab moves to.
pub open spec fn next_of(s: Section) -> Section {
    section_at((section_index(s) + 1) % 6)
}

/// The section that shift-tab moves to.
pub open spec fn previous_of(s: Section) -> Section {
    section_at((section_index(s) + 5) % 6)
}

/// The selection after moving down in a section of `len` tasks: one
/// further, stopping at the last task.
pub open spec fn moved_down(selected: int, len: int) -> int {
    if len > 0 {
        if selected + 1 <= len - 1 {
            selected + 1
        } else {
            len - 1
        }
    } else {
        selected
    }
}

/// The selection after moving up: one back, stopping at the first task.
pub open spec fn moved_up(selected: int) -> int {
    if selected > 0 {
        selected - 1
    } else {
        0
    }
}

/// The selection kept inside a section of `len` tasks.
pub open spec fn clamped(selected: int, len: int) -> int {
    if len == 0 {
        0
    } else if selected < len {
        selected
    } else {
        len - 1
    }
}

/// Which section is shown and which task in it is selected.
#[derive(Debug, Clone, Copy, PartialEq, Eq, Structural)]
pub struct TodayState {
    pub section: Section,
    pub selected: usize,
}

impl Default for TodayState {
    fn default() -> (r: TodayState)
        ensures
            r.section == Section::Inbox,
            r.selected == 0,
    {
        TodayState { section: Section::Inbox, selected: 0 }
    }
}

impl TodayState {
    /// The next section in the cycle, with the selection reset.
    pub fn next_section(&mut self)
        ensures
            final(self).section == next_of(old(self).section),
            final(self).selected == 0,
    {
        let sections = Section::all();
        let idx = self.section.index();
        self.section = sections[(idx + 1) % 6];
        self.selected = 0;
    }

    /// The previous section in the cycle, with the selection reset.
    pub fn previous_section(&mut self)
        ensures
            final(self).section == previous_of(old(self).section),
            final(self).selected == 0,
    {
        let sections = Section::all();
        let idx = self.section.index();
        self.section = sections[(idx + 6 - 1) % 6];
        self.selected = 0;
    }

    /// Moves the selection down, stopping at the last of `len` tasks.
    pub fn move_down(&mut self, len: usize)
        ensures
            final(self).section == old(self).section,
            final(self).selected == moved_down(old(self).selected as int, len as int),
    {
        if len > 0 {
            self.selected = if self.selected < len - 1 {
                self.selected + 1
            } else {
                len - 1
            };
        }
    }

    /// Moves the selection up, stopping at the first task.
    pub fn move_up(&mut self)
        ensures
            final(self).section == old(self).section,
            final(self).selected == moved_up(old(self).selected as int),
    {
        if self.selected > 0 {
            self.selected = self.selected - 1;
        }
    }

    /// Keeps the selection inside a section of `len` tasks.
    pub fn clamp_selection(&mut self, len: usize)
        ensures
            final(self).section == old(self).section,
            final(self).selected == clamped(old(self).selected as int, len as int),
    {
        if len == 0 {
            self.selected = 0;
        } else if self.selected >= len {
            self.selected = len - 1;
        }
    }
}

pub open spec fn ref_views(ts: Seq<&Task>) -> Seq<TaskView> {
    ts.map_values(|t: &Task| t@)
}

pub open spec fn group_tasks_flat(gs: Seq<TaskGroup>) -> Seq<TaskView>
    decreases gs.len(),
{
    if gs.len() == 0 {
        seq![]
    } else {
        group_tasks_flat(gs.drop_last()) + task_views(gs.last().tasks@)
    }
}

/// The tasks a section lists: Today is due today followed by scheduled
/// today, Projects is every project's tasks in project order.
pub open spec fn section_tasks(p: Plan, s: Section) -> Seq<TaskView> {
    match s {
        Section::Inbox => task_views(p.inbox@),
        Section::Today => task_views(p.due_today@) + task_views(p.scheduled_today@),
        Section::Overdue => task_views(p.overdue@),
        Section::Scheduled => task_views(p.scheduled_today@),
        Section::Waiting => task_views(p.waiting@),
        Section::Projects => group_tasks_flat(p.projects@),
    }
}

fn push_refs<'a>(out: &mut Vec<&'a Task>, ts: &'a Vec<Task>)
    ensures
        ref_views(final(out)@) == ref_views(old(out)@) + task_views(ts@),
{
    let mut i: usize = 0;
    while i < ts.len()
        invariant
            i <= ts.len(),
            ref_views(out@) == ref_views(old(out)@) + task_views(ts@).take(i as int),
        decreases ts.len() - i,
    {
        let ghost prev = out@;
        out.push(&ts[i]);
        proof {
            assert(out@ =~= prev.push(&ts[i as int]));
            assert(ref_views(out@) =~= ref_views(prev).push(ts@[i as int]@));
            assert(task_views(ts@).take(i + 1) =~= task_views(ts@).take(i as int).push(ts@[i as int]@));
            assert(ref_views(out@) =~= ref_views(old(out)@) + task_views(ts@).take(i + 1));
        }
        i += 1;
    }
    assert(task_views(ts@).take(ts.len() as int) =~= task_views(ts@));
}

pub fn tasks_for_section<'a>(plan: &'a Plan, section: Section) -> (r: Vec<&'a Task>)
    ensures
        ref_views(r@) == section_tasks(*plan, section),
{
    let mut out: Vec<&'a Task> = Vec::new();
    assert(ref_views(out@) =~= Seq::<TaskView>::empty());
    match section {
        Section::Inbox => push_refs(&mut out, &plan.inbox),
        Section::Today => {
            push_refs(&mut out, &plan.due_today);
            push_refs(&mut out, &plan.scheduled_today);
        },
        Section::Overdue => push_refs(&mut out, &plan.overdue),
        Section::Scheduled => push_refs(&mut out, &plan.scheduled_today),
        Section::Waiting => push_refs(&mut out, &plan.waiting),
        Section::Projects => {
            let mut i: usize = 0;
            while i < plan.projects.len()
                invariant
                    i <= plan.projects.len(),
                    ref_views(out@) == group_tasks_flat(plan.projects@.take(i as int)),
                decreases plan.projects.len() - i,
            {
                push_refs(&mut out, &plan.projects[i].tasks);
                proof {
                    assert(plan.projects@.take(i + 1).drop_last() =~= plan.projects@.take(i as int));
                }
                i += 1;
            }
            assert(plan.projects@.take(plan.projects.len() as int) =~= plan.projects@);
        },
    }
    out
}

/// A key press, as the command center sees it.
#[derive(Debug, Clone, Copy, PartialEq, Eq, Structural)]
pub enum Key {
    Char(char),
    Tab,
    BackTab,
    Down,
    Up,
    Other,
}

/// What the caller does after a key press.
#[derive(Debug, Clone, PartialEq, Eq)]
pub enum Action {
    /// Nothing beyond redrawing.
    Stay,
    /// Leave the command center.
    Quit,
    /// Rescan the vault and rebuild the plan.
    Refresh,
    /// Apply the edit to the task with this ID, then rescan, rebuild the
    /// plan and clamp the selection.
    Edit(String, LineEdit),
    /// Tomorrow is past the last date that `NaiveDate` holds.
    DateOutOfRange,
}

/// The ID of the selected task in the current section, if there is one.
pub open spec fn selected_id(p: Plan, st: TodayState) -> Option<Seq<char>> {
    let ts = section_tasks(p, st.section);
    if st.selected < ts.len() {
        ts[st.selected as int].id
    } else {
        None
    }
}

/// The action and state change for a key: `q` quits, tab and shift-tab
/// change section, up and down move the selection, `r` refreshes, and `d`,
/// `f`, `s` complete the selected task today, defer it to tomorrow and
/// schedule it for today (only when it has an ID).
pub fn handle_key(state: &mut TodayState, key: Key, plan: &Plan, today: Date) -> (r: Action)
    requires
        today.wf(),
    ensures
        match key {
            Key::Char('q') => r == Action::Quit && *final(state) == *old(state),
            Key::Tab => r == Action::Stay && final(state).section == next_of(old(state).section)
                && final(state).selected == 0,
            Key::BackTab => r == Action::Stay && final(state).section == previous_of(
                old(state).section,
            ) && final(state).selected == 0,
            Key::Down => {
                let len = section_tasks(*plan, old(state).section).len();
                &&& r == Action::Stay
                &&& final(state).section == old(state).section
                &&& final(state).selected == moved_down(old(state).selected as int, len as int)
            },
            Key::Up => r == Action::Stay && final(state).section == old(state).section
                && final(state).selected == moved_up(old(state).selected as int),
            Key::Char('r') => r == Action::Refresh && *final(state) == *old(state),
            Key::Char('d') | Key::Char('f') | Key::Char('s') => {
                &&& *final(state) == *old(state)
                &&& match selected_id(*plan, *old(state)) {
                    None => r == Action::Stay,
                    Some(id) => match key {
                        Key::Char('d') => r matches Action::Edit(s, e) && s@ == id && e
                            == LineEdit::Complete(today),
                        Key::Char('s') => r matches Action::Edit(s, e) && s@ == id && e
                            == LineEdit::Schedule(today),
                        _ => if next_day(today).wf() {
                            r matches Action::Edit(s, e) && s@ == id && e == LineEdit::Defer(
                                next_day(today),
                            )
                        } else {
                            r == Action::DateOutOfRange
                        },
                    },
                }
            },
            _ => r == Action::Stay && *final(state) == *old(state),
        },
{
    match key {
        Key::Char('q') => Action::Quit,
        Key::Tab => {
            state.next_section();
            Action::Stay
        },
        Key::BackTab => {
            state.previous_section();
            Action::Stay
        },
        Key::Down => {
            let len = tasks_for_section(plan, state.section).len();
            state.move_down(len);
            Action::Stay
        },
        Key::Up => {
            state.move_up();
            Action::Stay
        },
        Key::Char('r') => Action::Refresh,
        Key::Char(c) => {
            if c != 'd' && c != 'f' && c != 's' {
                return Action::Stay;
            }
            let tasks = tasks_for_section(plan, state.section);
            if state.selected >= tasks.len() {
                return Action::Stay;
            }
            let t = tasks[state.selected];
            proof {
                assert(ref_views(tasks@)[state.selected as int] == t@);
            }
            let id = match &t.id {
                Some(id) => id.clone(),
                None => {
                    return Action::Stay;
                },
            };
            if c == 'd' {
                Action::Edit(id, LineEdit::Complete(today))
            } else if c == 's' {
                Action::Edit(id, LineEdit::Schedule(today))
            } else {
                proof {
                    assert(crate::date::days_after(today, 1) == next_day(today)) by {
                        reveal_with_fuel(crate::date::days_after, 2);
                    }
                }
                match add_days(today, 1) {
                    Some(t) => Action::Edit(id, LineEdit::Defer(t)),
                    None => Action::DateOutOfRange,
                }
            }
        },
        Key::Other => Action::Stay,
    }
}

/// Shift-tab undoes tab and tab undoes shift-tab.
pub proof fn law_tab_backtab_inverse(s: Section)
    ensures
        previous_of(next_of(s)) == s,
        next_of(previous_of(s)) == s,
{
}

/// Six tabs visit every section once and come back to the start.
pub proof fn law_tab_cycle(s: Section)
    ensures
        next_of(next_of(next_of(next_of(next_of(next_of(s)))))) == s,
        s != next_of(s),
        s != next_of(next_of(s)),
        s != next_of(next_of(next_of(s))),
        s != next_of(next_of(next_of(next_of(s)))),
        s != next_of(next_of(next_of(next_of(next_of(s))))),
{
}

/// Moving down in a non-empty section, and clamping to a non-empty
/// section, leave the selection on one of its tasks; moving up never
/// leaves a valid selection, and moving down from a valid selection and
/// back up returns to it unless it was the last task.
pub proof fn law_selection_in_range(selected: int, len: int)
    requires
        0 <= selected,
        len > 0,
    ensures
        0 <= moved_down(selected, len) < len,
        0 <= clamped(selected, len) < len,
        selected < len ==> 0 <= moved_up(selected) < len,
        selected + 1 < len ==> moved_up(moved_down(selected, len)) == selected,
{
}

} // verus!
