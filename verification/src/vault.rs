//! Note text: generated sections, source-task scanning, single-line edits
//! and ID backfill. Reading and writing the files is left to the caller.
use vstd::prelude::*;
use crate::config::{resolve_spec, Config};
use crate::date::{weekday_abbrev, weekday_from_monday, weekday_abbrev_chars, weekday_number, Date};
use crate::paths::{join_path, join_path_exec};
use crate::task::{
    complete_line, complete_line_spec, line_with_due, line_with_due_spec, line_with_scheduled,
    line_with_scheduled_spec, opt_view, parse_line_only, parse_task_line, parse_task_spec,
    string_views, task_id_text, task_views, generate_task_id, Task, TaskView,
};
use crate::text::{
    chars_of, ends_with, extend, extend_str, find_sub, find_sub_exec, find_sub_from, has_prefix,
    has_suffix, join_lines, join_lines_exec, lemma_find_sub_from, lines, slice, split_lines,
    starts_with, string_of, trim, trim_chars, views, with_final_newline,
};

verus! {

pub open spec fn start_marker(section: Seq<char>) -> Seq<char> {
    "<!-- focus:"@ + section + ":start -->"@
}

pub open spec fn end_marker(section: Seq<char>) -> Seq<char> {
    "<!-- focus:"@ + section + ":end -->"@
}

/// `<!-- focus:<section>:start -->`
pub fn marker_start(section: &str) -> (r: Vec<char>)
    ensures
        r@ == start_marker(section@),
{
    let mut v = chars_of("<!-- focus:");
    extend_str(&mut v, section);
    extend_str(&mut v, ":start -->");
    v
}

/// `<!-- focus:<section>:end -->`
pub fn marker_end(section: &str) -> (r: Vec<char>)
    ensures
        r@ == end_marker(section@),
{
    let mut v = chars_of("<!-- focus:");
    extend_str(&mut v, section);
    extend_str(&mut v, ":end -->");
    v
}

/// Where a generated section lies: the start of its first start marker, the
/// start of the first end marker at or after it, and the end of that marker.
pub open spec fn section_parts(raw: Seq<char>, section: Seq<char>) -> Option<(int, int, int)> {
    match find_sub(raw, start_marker(section)) {
        None => None,
        Some(s) => match find_sub_from(raw, end_marker(section), s) {
            None => None,
            Some(m) => Some((s, m, m + end_marker(section).len())),
        },
    }
}

pub fn find_section_parts(raw: &Vec<char>, section: &str) -> (r: Option<(usize, usize, usize)>)
    ensures
        match r {
            Some((s, m, e)) => section_parts(raw@, section@) == Some((s as int, m as int, e as int))
                && s <= m && m <= e && e <= raw.len(),
            None => section_parts(raw@, section@) is None,
        },
{
    let start = marker_start(section);
    let end = marker_end(section);
    let rlen = raw.len();
    proof {
        lemma_find_sub_from(raw@, start@, 0);
    }
    let fs = find_sub_exec(raw, &start, 0);
    let s = match fs {
        Some(s) => s,
        None => {
            return None;
        },
    };
    proof {
        let i0 = find_sub_from(raw@, start@, 0).unwrap();
        assert(i0 + start@.len() <= rlen);
        assert(s as int == i0);
        lemma_find_sub_from(raw@, end@, s as int);
    }
    let fm = find_sub_exec(raw, &end, s);
    match fm {
        Some(m) => {
            proof {
                let i = find_sub_from(raw@, end@, s as int).unwrap();
                assert(i + end@.len() <= raw@.len());
                assert(fm == Some(i as usize));
                assert(m as int == i);
            }
            Some((s, m, m + end.len()))
        },
        None => None,
    }
}

/// The start and end of a generated section, markers included.
pub fn find_section(raw: &Vec<char>, section: &str) -> (r: Option<(usize, usize)>)
    ensures
        match r {
            Some((s, e)) => section_parts(raw@, section@) matches Some((s2, _m, e2)) && s == s2
                && e == e2 && s <= e <= raw.len(),
            None => section_parts(raw@, section@) is None,
        },
{
    match find_section_parts(raw, section) {
        Some((s, _m, e)) => Some((s, e)),
        None => None,
    }
}

/// Text that a new section is appended to: a line feed is added to end the
/// last line, and one more to leave a blank line.
pub open spec fn padded(raw: Seq<char>) -> Seq<char> {
    if raw.len() == 0 {
        raw
    } else if raw.last() == '\n' {
        raw + seq!['\n']
    } else {
        raw + seq!['\n', '\n']
    }
}

fn pad_exec(v: &mut Vec<char>)
    ensures
        final(v)@ == padded(old(v)@),
{
    if v.len() > 0 {
        if v[v.len() - 1] != '\n' {
            v.push('\n');
        }
        v.push('\n');
    }
    assert(v@ =~= padded(old(v)@));
}

/// The section block: start marker, the body on its own lines, end marker.
pub open spec fn section_block(section: Seq<char>, body: Seq<char>) -> Seq<char> {
    start_marker(section) + seq!['\n'] + body + seq!['\n'] + end_marker(section)
}

/// The note text with the generated section replaced by `body`; when the
/// note has no such section, the section is appended after a blank line.
pub open spec fn section_replaced_spec(raw: Seq<char>, section: Seq<char>, body: Seq<char>) -> Seq<
    char,
> {
    match section_parts(raw, section) {
        Some((s, _m, e)) => raw.take(s) + section_block(section, body) + raw.skip(e),
        None => padded(raw) + section_block(section, body) + seq!['\n'],
    }
}

pub fn section_replaced(raw: &str, section: &str, body: &str) -> (r: String)
    ensures
        r@ == section_replaced_spec(raw@, section@, body@),
{
    let v = chars_of(raw);
    let mut block = marker_start(section);
    block.push('\n');
    extend_str(&mut block, body);
    block.push('\n');
    let end = marker_end(section);
    extend(&mut block, &end);
    match find_section(&v, section) {
        Some((s, e)) => {
            let mut r = slice(&v, 0, s);
            extend(&mut r, &block);
            let rest = slice(&v, e, v.len());
            extend(&mut r, &rest);
            proof {
                assert(r@ =~= section_replaced_spec(raw@, section@, body@));
            }
            string_of(&r)
        },
        None => {
            let mut r = v;
            pad_exec(&mut r);
            extend(&mut r, &block);
            r.push('\n');
            proof {
                assert(r@ =~= section_replaced_spec(raw@, section@, body@));
            }
            string_of(&r)
        },
    }
}

/// The note text with `line` added at the end of the generated section (on
/// a line of its own); when the note has no such section, a new one with a
/// `## <heading>` line is appended after a blank line.
pub open spec fn section_appended_spec(
    raw: Seq<char>,
    section: Seq<char>,
    heading: Seq<char>,
    line: Seq<char>,
) -> Seq<char> {
    match section_parts(raw, section) {
        Some((_s, m, _e)) => {
            let prefix = raw.take(m);
            let sep = if prefix.len() > 0 && prefix.last() == '\n' {
                seq![]
            } else {
                seq!['\n']
            };
            prefix + sep + line + seq!['\n'] + raw.skip(m)
        },
        None => padded(raw) + start_marker(section) + "\n## "@ + heading + seq!['\n'] + line
            + seq!['\n'] + end_marker(section) + seq!['\n'],
    }
}

pub fn section_appended(raw: &str, section: &str, heading: &str, line: &str) -> (r: String)
    ensures
        r@ == section_appended_spec(raw@, section@, heading@, line@),
{
    let v = chars_of(raw);
    match find_section_parts(&v, section) {
        Some((_s, m, _e)) => {
            let mut r = slice(&v, 0, m);
            if !(m > 0 && v[m - 1] == '\n') {
                r.push('\n');
            }
            extend_str(&mut r, line);
            r.push('\n');
            let rest = slice(&v, m, v.len());
            extend(&mut r, &rest);
            proof {
                assert(r@ =~= section_appended_spec(raw@, section@, heading@, line@));
            }
            string_of(&r)
        },
        None => {
            let mut r = v;
            pad_exec(&mut r);
            let start = marker_start(section);
            extend(&mut r, &start);
            extend_str(&mut r, "\n## ");
            extend_str(&mut r, heading);
            r.push('\n');
            extend_str(&mut r, line);
            r.push('\n');
            let end = marker_end(section);
            extend(&mut r, &end);
            r.push('\n');
            proof {
                assert(r@ =~= section_appended_spec(raw@, section@, heading@, line@));
            }
            string_of(&r)
        },
    }
}

// ---------------------------------------------------------------------------
// Scanning source tasks
// ---------------------------------------------------------------------------
/// The section name of a line that is a start marker (after trimming).
pub open spec fn section_start_name(line: Seq<char>) -> Option<Seq<char>> {
    let t = trim(line);
    let p = "<!-- focus:"@;
    let q = ":start -->"@;
    if starts_with(t, p) && ends_with(t.skip(p.len() as int), q) {
        Some(t.skip(p.len() as int).take(t.len() - p.len() - q.len()))
    } else {
        None
    }
}

/// The line is an end marker (after trimming).
pub open spec fn is_section_end(line: Seq<char>) -> bool {
    let t = trim(line);
    starts_with(t, "<!-- focus:"@) && ends_with(t, ":end -->"@)
}

pub fn focus_section_start(line: &Vec<char>) -> (r: Option<Vec<char>>)
    ensures
        match r {
            Some(s) => section_start_name(line@) == Some(s@),
            None => section_start_name(line@) is None,
        },
{
    let t = trim_chars(line);
    let p = chars_of("<!-- focus:");
    let q = chars_of(":start -->");
    if !has_prefix(&t, &p) {
        return None;
    }
    let rest = slice(&t, p.len(), t.len());
    proof {
        assert(rest@ =~= t@.skip(p.len() as int));
    }
    if !has_suffix(&rest, &q) {
        return None;
    }
    let name = slice(&rest, 0, rest.len() - q.len());
    proof {
        assert(name@ =~= rest@.take(t.len() - p.len() - q.len()));
    }
    Some(name)
}

pub fn focus_section_end(line: &Vec<char>) -> (r: bool)
    ensures
        r == is_section_end(line@),
{
    let t = trim_chars(line);
    has_prefix(&t, &chars_of("<!-- focus:")) && has_suffix(&t, &chars_of(":end -->"))
}

/// The generated section open after the first `n` lines, if any.
pub open spec fn state_after(ls: Seq<Seq<char>>, n: int) -> Option<Seq<char>>
    decreases n,
{
    if n <= 0 {
        None
    } else {
        match section_start_name(ls[n - 1]) {
            Some(s) => Some(s),
            None => if is_section_end(ls[n - 1]) {
                None
            } else {
                state_after(ls, n - 1)
            },
        }
    }
}

/// Line `i` is source content: not a marker, and not inside a generated
/// section other than the capture inbox.
pub open spec fn is_source_line(ls: Seq<Seq<char>>, i: int) -> bool {
    &&& section_start_name(ls[i]) is None
    &&& !is_section_end(ls[i])
    &&& (state_after(ls, i) matches Some(s) ==> s == "inbox"@)
}

/// The tasks on source lines among the first `n` lines, numbered from 1.
pub open spec fn scan_lines_spec(path: Seq<char>, ls: Seq<Seq<char>>, n: int) -> Seq<TaskView>
    decreases n,
{
    if n <= 0 {
        seq![]
    } else {
        scan_lines_spec(path, ls, n - 1) + if is_source_line(ls, n - 1) && parse_task_spec(
            path,
            n as usize,
            ls[n - 1],
        ) is Some {
            seq![parse_task_spec(path, n as usize, ls[n - 1]).unwrap()]
        } else {
            seq![]
        }
    }
}

/// The source tasks of a note.
pub open spec fn scan_note_spec(path: Seq<char>, raw: Seq<char>) -> Seq<TaskView> {
    scan_lines_spec(path, lines(raw), lines(raw).len() as int)
}

pub open spec fn opt_chars(o: Option<Vec<char>>) -> Option<Seq<char>> {
    match o {
        Some(v) => Some(v@),
        None => None,
    }
}

/// Steps the section state past one line; reports whether it is source content.
fn step_section(state: &mut Option<Vec<char>>, line: &Vec<char>) -> (src: bool)
    ensures
        opt_chars(*final(state)) == (match section_start_name(line@) {
            Some(s) => Some(s),
            None => if is_section_end(line@) {
                None
            } else {
                opt_chars(*old(state))
            },
        }),
        src == (section_start_name(line@) is None && !is_section_end(line@) && (opt_chars(
            *old(state),
        ) matches Some(s) ==> s == "inbox"@)),
{
    match focus_section_start(line) {
        Some(s) => {
            *state = Some(s);
            return false;
        },
        None => {},
    }
    if focus_section_end(line) {
        *state = None;
        return false;
    }
    let inbox = chars_of("inbox");
    match state {
        Some(s) => crate::task::chars_equal(s, &inbox),
        None => true,
    }
}

/// The source tasks of a note's text.
pub fn scan_note(path: &str, raw: &str) -> (r: Vec<Task>)
    ensures
        task_views(r@) == scan_note_spec(path@, raw@),
{
    let ls = split_lines(&chars_of(raw));
    let ghost lsv = views(ls@);
    let mut r: Vec<Task> = Vec::new();
    let mut state: Option<Vec<char>> = None;
    let mut i: usize = 0;
    assert(task_views(r@) =~= Seq::<TaskView>::empty());
    while i < ls.len()
        invariant
            i <= ls.len(),
            lsv == views(ls@),
            lsv == lines(raw@),
            opt_chars(state) == state_after(lsv, i as int),
            task_views(r@) == scan_lines_spec(path@, lsv, i as int),
        decreases ls.len() - i,
    {
        let line = &ls[i];
        proof {
            assert(lsv[i as int] == line@);
        }
        let src = step_section(&mut state, line);
        if src {
            let s = string_of(line);
            let p = string_of(&chars_of(path));
            match parse_task_line(p, i + 1, s.as_str()) {
                Some(t) => {
                    let ghost old_r = r@;
                    r.push(t);
                    proof {
                        assert(r@ =~= old_r.push(t));
                        assert(task_views(r@) =~= task_views(old_r).push(t@));
                    }
                },
                None => {},
            }
        }
        i += 1;
        proof {
            assert(task_views(r@) =~= scan_lines_spec(path@, lsv, i as int));
        }
    }
    r
}

/// The daily note of a date: `<daily folder>/YYYY-MM-DD Ddd.md`.
pub open spec fn daily_note_path_spec(config_vault: Seq<char>, daily: Seq<char>, date: Date) -> Seq<
    char,
> {
    join_path(
        resolve_spec(config_vault, daily),
        date.text() + seq![' '] + weekday_abbrev(weekday_from_monday(date)) + ".md"@,
    )
}

pub fn daily_note_path(config: &Config, date: Date) -> (r: String)
    requires
        date.wf(),
    ensures
        r@ == daily_note_path_spec(config.vault_path@, config.daily_folder@, date),
{
    let dir = config.daily_dir();
    let mut name = date.text_chars();
    name.push(' ');
    let wd = weekday_abbrev_chars(weekday_number(date));
    extend(&mut name, &wd);
    extend_str(&mut name, ".md");
    let n = string_of(&name);
    join_path_exec(dir.as_str(), n.as_str())
}


// ---------------------------------------------------------------------------
// Editing one task line of a note
// ---------------------------------------------------------------------------
/// A change to one task line.
#[derive(Clone, Copy, Debug, PartialEq, Eq, Structural)]
pub enum LineEdit {
    /// Mark done on the given day.
    Complete(Date),
    /// Set the scheduled date.
    Schedule(Date),
    /// Set the due date.
    Defer(Date),
}

impl LineEdit {
    pub open spec fn wf(self) -> bool {
        match self {
            LineEdit::Complete(d) => d.wf(),
            LineEdit::Schedule(d) => d.wf(),
            LineEdit::Defer(d) => d.wf(),
        }
    }
}

pub open spec fn apply_edit_spec(line: Seq<char>, edit: LineEdit) -> Option<Seq<char>> {
    match edit {
        LineEdit::Complete(d) => complete_line_spec(line, d),
        LineEdit::Schedule(d) => line_with_scheduled_spec(line, d),
        LineEdit::Defer(d) => line_with_due_spec(line, d),
    }
}

pub fn apply_edit(line: &str, edit: LineEdit) -> (r: Option<String>)
    requires
        edit.wf(),
    ensures
        opt_view(r) == apply_edit_spec(line@, edit),
{
    match edit {
        LineEdit::Complete(d) => complete_line(line, d),
        LineEdit::Schedule(d) => line_with_scheduled(line, d),
        LineEdit::Defer(d) => line_with_due(line, d),
    }
}

/// Why a line edit was refused.
#[derive(Clone, Copy, Debug, PartialEq, Eq, Structural)]
pub enum EditError {
    /// Line numbers start at 1.
    LineZero,
    /// The note has fewer lines.
    NoSuchLine,
    /// The line is not a task line.
    NotATask,
}

pub open spec fn ends_in_newline(s: Seq<char>) -> bool {
    s.len() > 0 && s.last() == '\n'
}

/// The note text with line `n` (counted from 1) edited; the lines are joined
/// with `\n`, and a final line feed is kept when the note had one.
pub open spec fn edit_text_spec(raw: Seq<char>, n: usize, edit: LineEdit) -> Result<
    Seq<char>,
    EditError,
> {
    let ls = lines(raw);
    if n == 0 {
        Err(EditError::LineZero)
    } else if n > ls.len() {
        Err(EditError::NoSuchLine)
    } else {
        match apply_edit_spec(ls[n - 1], edit) {
            None => Err(EditError::NotATask),
            Some(l) => Ok(
                with_final_newline(join_lines(ls.update(n - 1, l)), ends_in_newline(raw)),
            ),
        }
    }
}

pub open spec fn result_view(r: Result<String, EditError>) -> Result<Seq<char>, EditError> {
    match r {
        Ok(s) => Ok(s@),
        Err(e) => Err(e),
    }
}

/// Lines joined with `\n`, with a final line feed when `final_newline` holds.
pub fn join_lines_with_final(ls: &Vec<Vec<char>>, final_newline: bool) -> (r: String)
    ensures
        r@ == with_final_newline(join_lines(views(ls@)), final_newline),
{
    let mut v = join_lines_exec(ls);
    if final_newline {
        v.push('\n');
    }
    string_of(&v)
}

pub fn edit_line_in_text(raw: &str, line_number: usize, edit: LineEdit) -> (r: Result<
    String,
    EditError,
>)
    requires
        edit.wf(),
    ensures
        result_view(r) == edit_text_spec(raw@, line_number, edit),
{
    if line_number == 0 {
        return Err(EditError::LineZero);
    }
    let v = chars_of(raw);
    let mut ls = split_lines(&v);
    if line_number > ls.len() {
        return Err(EditError::NoSuchLine);
    }
    let target = string_of(&ls[line_number - 1]);
    proof {
        assert(views(ls@)[line_number - 1] == ls@[line_number - 1]@);
    }
    let updated = match apply_edit(target.as_str(), edit) {
        Some(u) => u,
        None => {
            return Err(EditError::NotATask);
        },
    };
    let ghost old_ls = ls@;
    let uc = chars_of(updated.as_str());
    ls.set(line_number - 1, uc);
    proof {
        assert(views(ls@) =~= views(old_ls).update(line_number - 1, updated@));
    }
    let fin = v.len() > 0 && v[v.len() - 1] == '\n';
    Ok(join_lines_with_final(&ls, fin))
}

/// Edits line `line_number` of a note: `complete_task_at` and the ID-based
/// edits come down to this.
pub fn complete_in_text(raw: &str, line_number: usize, today: Date) -> (r: Result<
    String,
    EditError,
>)
    requires
        today.wf(),
    ensures
        result_view(r) == edit_text_spec(raw@, line_number, LineEdit::Complete(today)),
{
    edit_line_in_text(raw, line_number, LineEdit::Complete(today))
}

// ---------------------------------------------------------------------------
// Finding a task by ID
// ---------------------------------------------------------------------------
/// Number of tasks with the given ID.
pub open spec fn count_with_id(ts: Seq<TaskView>, id: Seq<char>) -> nat
    decreases ts.len(),
{
    if ts.len() == 0 {
        0
    } else {
        count_with_id(ts.drop_last(), id) + if ts.last().id == Some(id) {
            1nat
        } else {
            0nat
        }
    }
}

/// Why an ID-based edit was refused.
#[derive(Clone, Copy, Debug, PartialEq, Eq, Structural)]
pub enum IdError {
    /// No task has the ID.
    NotFound,
    /// More than one task has the ID.
    Duplicate,
}

/// The only task with the given ID; a missing or shared ID is refused.
pub fn find_task_by_id(tasks: &Vec<Task>, id: &str) -> (r: Result<usize, IdError>)
    ensures
        match r {
            Ok(i) => i < tasks.len() && tasks@[i as int]@.id == Some(id@) && count_with_id(
                task_views(tasks@),
                id@,
            ) == 1,
            Err(IdError::NotFound) => count_with_id(task_views(tasks@), id@) == 0,
            Err(IdError::Duplicate) => count_with_id(task_views(tasks@), id@) >= 2,
        },
{
    let idc = chars_of(id);
    let mut found: Option<usize> = None;
    let mut count: usize = 0;
    let mut i: usize = 0;
    while i < tasks.len()
        invariant
            i <= tasks.len(),
            idc@ == id@,
            count == count_with_id(task_views(tasks@).take(i as int), id@),
            count <= i,
            count == 0 <==> found is None,
            found matches Some(k) ==> k < i && tasks@[k as int]@.id == Some(id@),
        decreases tasks.len() - i,
    {
        let t = &tasks[i];
        let matches = match &t.id {
            Some(tid) => crate::task::chars_equal(&chars_of(tid.as_str()), &idc),
            None => false,
        };
        proof {
            let pre = task_views(tasks@).take(i + 1);
            assert(pre.drop_last() =~= task_views(tasks@).take(i as int));
            assert(pre.last() == t@);
        }
        if matches {
            if found.is_none() {
                found = Some(i);
            }
            count = count + 1;
        }
        i += 1;
    }
    assert(task_views(tasks@).take(tasks.len() as int) =~= task_views(tasks@));
    if count == 0 {
        Err(IdError::NotFound)
    } else if count > 1 {
        Err(IdError::Duplicate)
    } else {
        match found {
            Some(k) => Ok(k),
            None => Err(IdError::NotFound),
        }
    }
}


// ---------------------------------------------------------------------------
// Backfilling task IDs
// ---------------------------------------------------------------------------
/// Line `i` is an open source task without an ID.
pub open spec fn needs_id(ls: Seq<Seq<char>>, i: int) -> bool {
    &&& is_source_line(ls, i)
    &&& match parse_task_spec(seq![], 1, ls[i]) {
        Some(t) => t.is_open() && t.id is None,
        None => false,
    }
}

/// Number of lines among the first `n` that need an ID.
pub open spec fn count_needing(ls: Seq<Seq<char>>, n: int) -> nat
    decreases n,
{
    if n <= 0 {
        0
    } else {
        count_needing(ls, n - 1) + if needs_id(ls, n - 1) {
            1nat
        } else {
            0nat
        }
    }
}

/// The first `n` lines, each line that needs an ID given the next unused
/// one of `ids` as ` 🆔 <id>`.
pub open spec fn backfilled_lines(ls: Seq<Seq<char>>, ids: Seq<Seq<char>>, n: int) -> Seq<
    Seq<char>,
>
    decreases n,
{
    if n <= 0 {
        seq![]
    } else {
        backfilled_lines(ls, ids, n - 1).push(
            if needs_id(ls, n - 1) {
                ls[n - 1] + seq![' ', '🆔', ' '] + ids[count_needing(ls, n - 1) as int]
            } else {
                ls[n - 1]
            },
        )
    }
}

/// The note text after ID backfill, with the IDs taken in order.
pub open spec fn backfill_spec(raw: Seq<char>, ids: Seq<Seq<char>>) -> Seq<char> {
    let ls = lines(raw);
    with_final_newline(
        join_lines(backfilled_lines(ls, ids, ls.len() as int)),
        ends_in_newline(raw),
    )
}

/// Whether an open source task without an ID sits on this line; advances the
/// section state.
fn line_needs_id(state: &mut Option<Vec<char>>, line: &Vec<char>) -> (r: bool)
    ensures
        opt_chars(*final(state)) == (match section_start_name(line@) {
            Some(s) => Some(s),
            None => if is_section_end(line@) {
                None
            } else {
                opt_chars(*old(state))
            },
        }),
        r == ((section_start_name(line@) is None && !is_section_end(line@) && (opt_chars(
            *old(state),
        ) matches Some(s) ==> s == "inbox"@)) && match parse_task_spec(seq![], 1, line@) {
            Some(t) => t.is_open() && t.id is None,
            None => false,
        }),
{
    let src = step_section(state, line);
    if !src {
        return false;
    }
    let s = string_of(line);
    match parse_line_only(s.as_str()) {
        Some(t) => t.is_open() && t.id.is_none(),
        None => false,
    }
}

/// How many lines of a note need an ID.
pub fn count_missing_ids(raw: &str) -> (r: usize)
    ensures
        r == count_needing(lines(raw@), lines(raw@).len() as int),
{
    let ls = split_lines(&chars_of(raw));
    let ghost lsv = views(ls@);
    let mut state: Option<Vec<char>> = None;
    let mut n: usize = 0;
    let mut i: usize = 0;
    while i < ls.len()
        invariant
            i <= ls.len(),
            lsv == views(ls@),
            lsv == lines(raw@),
            opt_chars(state) == state_after(lsv, i as int),
            n == count_needing(lsv, i as int),
            n <= i,
        decreases ls.len() - i,
    {
        proof {
            assert(lsv[i as int] == ls@[i as int]@);
        }
        if line_needs_id(&mut state, &ls[i]) {
            n += 1;
        }
        i += 1;
    }
    n
}

/// Adds the given IDs, in order, to the note's open source tasks that have
/// none; returns the new text and how many tasks got an ID.
pub fn backfill_note_with(raw: &str, ids: &Vec<String>) -> (r: (String, usize))
    requires
        ids.len() >= count_needing(lines(raw@), lines(raw@).len() as int),
    ensures
        r.0@ == backfill_spec(raw@, string_views(ids@)),
        r.1 == count_needing(lines(raw@), lines(raw@).len() as int),
{
    let v = chars_of(raw);
    let ls = split_lines(&v);
    let ghost lsv = views(ls@);
    let ghost idv = string_views(ids@);
    let mut out: Vec<Vec<char>> = Vec::new();
    let mut state: Option<Vec<char>> = None;
    let mut n: usize = 0;
    let mut i: usize = 0;
    assert(views(out@) =~= Seq::<Seq<char>>::empty());
    while i < ls.len()
        invariant
            i <= ls.len(),
            lsv == views(ls@),
            lsv == lines(raw@),
            idv == string_views(ids@),
            ids.len() >= count_needing(lsv, lsv.len() as int),
            opt_chars(state) == state_after(lsv, i as int),
            n == count_needing(lsv, i as int),
            views(out@) == backfilled_lines(lsv, idv, i as int),
        decreases ls.len() - i,
    {
        proof {
            assert(lsv[i as int] == ls@[i as int]@);
            lemma_count_needing_mono(lsv, i + 1, lsv.len() as int);
        }
        let ghost old_n = n;
        let needs = line_needs_id(&mut state, &ls[i]);
        proof {
            assert(needs == needs_id(lsv, i as int));
        }
        let ghost old_out = out@;
        let mut line = crate::text::slice(&ls[i], 0, ls[i].len());
        proof {
            assert(line@ =~= lsv[i as int]);
        }
        if needs {
            line.push(' ');
            line.push('🆔');
            line.push(' ');
            extend_str(&mut line, ids[n].as_str());
            proof {
                assert(idv[n as int] == ids@[n as int]@);
            }
            n += 1;
        }
        out.push(line);
        proof {
            assert(out@ =~= old_out.push(line));
            assert(views(out@) =~= views(old_out).push(line@));
            assert(count_needing(lsv, i as int) == old_n);
            if needs {
                assert(line@ == lsv[i as int] + seq![' ', '🆔', ' '] + idv[old_n as int]);
            }
            assert(views(out@) =~= backfilled_lines(lsv, idv, i + 1));
        }
        i += 1;
    }
    let fin = v.len() > 0 && v[v.len() - 1] == '\n';
    (join_lines_with_final(&out, fin), n)
}

pub proof fn lemma_count_needing_mono(ls: Seq<Seq<char>>, a: int, b: int)
    requires
        a <= b,
    ensures
        count_needing(ls, a) <= count_needing(ls, b),
    decreases b - a,
{
    if a < b {
        lemma_count_needing_mono(ls, a, b - 1);
    }
}

/// The text is a task ID made from some moment.
pub open spec fn is_task_id(s: Seq<char>) -> bool {
    exists|secs: u64, nanos: u32| nanos < 1_000_000_000 && s == task_id_text(secs, nanos)
}

/// Adds fresh IDs to the note's open source tasks that have none; returns
/// the new text and how many tasks got an ID.
pub fn backfill_note(raw: &str) -> (r: (String, usize))
    ensures
        exists|ids: Seq<Seq<char>>|
            ids.len() == r.1 && (forall|k: int| 0 <= k < ids.len() ==> is_task_id(#[trigger] ids[k]))
                && r.0@ == backfill_spec(raw@, ids),
        r.1 == count_needing(lines(raw@), lines(raw@).len() as int),
{
    let needed = count_missing_ids(raw);
    let mut ids: Vec<String> = Vec::new();
    while ids.len() < needed
        invariant
            ids.len() <= needed,
            forall|k: int| 0 <= k < ids.len() ==> is_task_id(#[trigger] string_views(ids@)[k]),
        decreases needed - ids.len(),
    {
        let id = generate_task_id();
        let ghost old_ids = ids@;
        ids.push(id);
        proof {
            assert(ids@ =~= old_ids.push(id));
            assert forall|k: int| 0 <= k < ids.len() implies is_task_id(
                #[trigger] string_views(ids@)[k],
            ) by {
                if k < old_ids.len() {
                    assert(string_views(ids@)[k] == string_views(old_ids)[k]);
                }
            }
        }
    }
    let r = backfill_note_with(raw, &ids);
    proof {
        assert(string_views(ids@).len() == r.1);
    }
    r
}

} // verus!
