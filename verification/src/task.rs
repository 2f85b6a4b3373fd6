//! Markdown checkbox tasks with Obsidian Tasks metadata: parsing, building
//! and single-line edits.
use vstd::prelude::*;
use crate::date::{chrono_parse_date, decimal, decimal_chars, digit_char, parse_ymd, Date};
use crate::text::{
    byte_prefix, byte_prefix_exec, chars_of, contains_char, extend, extend_str, find_char,
    find_sub, find_sub_exec, join_with, join_with_exec, segments, split_segments, find_char_from,
    has_prefix, lead_nonws, lead_ws, lemma_byte_prefix_bound, lemma_find_char, nonws_run_end,
    push_char, replace_char, replace_char_exec, slice, split_words, starts_with, string_of, trim,
    trim_chars, trim_start, views, words, ws_run_end,
};

verus! {

#[derive(Clone, Copy, Debug, PartialEq, Eq, Structural, PartialOrd, Ord)]
pub enum Priority {
    Lowest,
    Low,
    Medium,
    High,
    Highest,
}

/// The emoji that marks each priority.
pub open spec fn priority_emoji(p: Priority) -> char {
    match p {
        Priority::Highest => '🔺',
        Priority::High => '⏫',
        Priority::Medium => '🔼',
        Priority::Low => '🔽',
        Priority::Lowest => '⏬',
    }
}

/// The priority named by a lower-case word.
pub open spec fn priority_named(name: Seq<char>) -> Option<Priority> {
    if name == "lowest"@ {
        Some(Priority::Lowest)
    } else if name == "low"@ {
        Some(Priority::Low)
    } else if name == "medium"@ {
        Some(Priority::Medium)
    } else if name == "high"@ {
        Some(Priority::High)
    } else if name == "highest"@ {
        Some(Priority::Highest)
    } else {
        None
    }
}

/// Whether two character vectors hold the same characters.
pub fn chars_equal(a: &Vec<char>, b: &Vec<char>) -> (r: bool)
    ensures
        r == (a@ == b@),
{
    if a.len() != b.len() {
        return false;
    }
    let mut i: usize = 0;
    while i < a.len()
        invariant
            a.len() == b.len(),
            i <= a.len(),
            forall|k: int| 0 <= k < i ==> a@[k] == b@[k],
        decreases a.len() - i,
    {
        if a[i] != b[i] {
            return false;
        }
        i += 1;
    }
    assert(a@ =~= b@);
    true
}

/// Whether a string slice equals a literal.
pub fn str_is(s: &str, lit: &str) -> (r: bool)
    ensures
        r == (s@ == lit@),
{
    let a = chars_of(s);
    let b = chars_of(lit);
    chars_equal(&a, &b)
}

impl Priority {
    pub fn from_name(name: &str) -> (r: Option<Priority>)
        ensures
            r == priority_named(name@),
    {
        if str_is(name, "lowest") {
            Some(Priority::Lowest)
        } else if str_is(name, "low") {
            Some(Priority::Low)
        } else if str_is(name, "medium") {
            Some(Priority::Medium)
        } else if str_is(name, "high") {
            Some(Priority::High)
        } else if str_is(name, "highest") {
            Some(Priority::Highest)
        } else {
            None
        }
    }

    pub fn emoji_char(self) -> (c: char)
        ensures
            c == priority_emoji(self),
    {
        match self {
            Priority::Highest => '🔺',
            Priority::High => '⏫',
            Priority::Medium => '🔼',
            Priority::Low => '🔽',
            Priority::Lowest => '⏬',
        }
    }

    pub fn emoji(self) -> (r: String)
        ensures
            r@ == seq![priority_emoji(self)],
    {
        let mut r = String::new();
        push_char(&mut r, self.emoji_char());
        r
    }
}

/// The abstract content of a task.
pub struct TaskView {
    pub path: Seq<char>,
    pub line_number: usize,
    pub indent: Seq<char>,
    pub marker: char,
    pub status: char,
    pub text: Seq<char>,
    pub raw: Seq<char>,
    pub due: Option<Date>,
    pub scheduled: Option<Date>,
    pub start: Option<Date>,
    pub created: Option<Date>,
    pub done: Option<Date>,
    pub id: Option<Seq<char>>,
    pub priority: Option<Priority>,
    pub tags: Seq<Seq<char>>,
    pub person: Option<Seq<char>>,
    pub project: Option<Seq<char>>,
}

/// A checkbox task read from one line of a Markdown note.
#[derive(Debug, Clone)]
pub struct Task {
    pub path: String,
    pub line_number: usize,
    pub indent: String,
    pub marker: char,
    pub status: char,
    pub text: String,
    pub raw: String,
    pub due: Option<Date>,
    pub scheduled: Option<Date>,
    pub start: Option<Date>,
    pub created: Option<Date>,
    pub done: Option<Date>,
    pub id: Option<String>,
    pub priority: Option<Priority>,
    pub tags: Vec<String>,
    pub person: Option<String>,
    pub project: Option<String>,
}

pub open spec fn opt_view(o: Option<String>) -> Option<Seq<char>> {
    match o {
        Some(s) => Some(s@),
        None => None,
    }
}

pub open spec fn task_views(ts: Seq<Task>) -> Seq<TaskView> {
    ts.map_values(|t: Task| t@)
}

pub open spec fn string_views(v: Seq<String>) -> Seq<Seq<char>> {
    v.map_values(|s: String| s@)
}

impl View for Task {
    type V = TaskView;

    open spec fn view(&self) -> TaskView {
        TaskView {
            path: self.path@,
            line_number: self.line_number,
            indent: self.indent@,
            marker: self.marker,
            status: self.status,
            text: self.text@,
            raw: self.raw@,
            due: self.due,
            scheduled: self.scheduled,
            start: self.start,
            created: self.created,
            done: self.done,
            id: opt_view(self.id),
            priority: self.priority,
            tags: string_views(self.tags@),
            person: opt_view(self.person),
            project: opt_view(self.project),
        }
    }
}

// ---------------------------------------------------------------------------
// The task-line grammar
// ---------------------------------------------------------------------------
pub open spec fn is_list_marker(c: char) -> bool {
    c == '-' || c == '*' || c == '+'
}

/// A task line is: leading whitespace (the indent), a list marker `-`, `*`
/// or `+`, a space, `[`, one status character other than a line feed, `]`,
/// a space, and the task text, which holds no line feed. Yields the indent
/// length.
pub open spec fn task_head(line: Seq<char>) -> Option<int> {
    let k = lead_ws(line) as int;
    if k + 6 <= line.len() && is_list_marker(line[k]) && line[k + 1] == ' ' && line[k + 2] == '['
        && line[k + 3] != '\n' && line[k + 4] == ']' && line[k + 5] == ' ' && !line.skip(
        k + 6,
    ).contains('\n') {
        Some(k)
    } else {
        None
    }
}

/// The text read as a date after the first `marker`: leading whitespace is
/// skipped and the next ten bytes are taken.
#[verifier::opaque]
pub open spec fn date_piece(text: Seq<char>, marker: char) -> Option<Seq<char>> {
    match find_char(text, marker) {
        None => None,
        Some(p) => {
            let rest = trim_start(text.skip(p + 1));
            match byte_prefix(rest, 10) {
                None => None,
                Some(k) => Some(rest.take(k as int)),
            }
        },
    }
}

/// The date after the first `marker` in the text: what chrono parses from
/// the ten bytes that follow it (leading whitespace skipped).
pub open spec fn date_after(text: Seq<char>, marker: char) -> Option<Date> {
    match date_piece(text, marker) {
        None => None,
        Some(s) => chrono_parse_date(s),
    }
}

/// A date read after `marker` is the date whose `YYYY-MM-DD` text (with a
/// four-digit year) stands there.
pub open spec fn date_read_back(text: Seq<char>, marker: char, r: Option<Date>) -> bool {
    forall|d: Date|
        #![trigger d.text()]
        d.wf() && 0 <= d.year <= 9999 && date_piece(text, marker) == Some(d.text()) ==> r == Some(
            d,
        )
}

/// An ID right after the `🆔` at `i`: at least one whitespace character,
/// then the run of non-whitespace characters.
pub open spec fn id_at(text: Seq<char>, i: int) -> Option<Seq<char>> {
    if 0 <= i < text.len() && text[i] == '🆔' {
        let s = i + 1 + lead_ws(text.skip(i + 1));
        if s > i + 1 && s < text.len() {
            Some(text.subrange(s, s + lead_nonws(text.skip(s))))
        } else {
            None
        }
    } else {
        None
    }
}

pub open spec fn id_from(text: Seq<char>, i: int) -> Option<Seq<char>>
    decreases text.len() - i,
{
    if i < 0 || i >= text.len() {
        None
    } else {
        match id_at(text, i) {
            Some(id) => Some(id),
            None => id_from(text, i + 1),
        }
    }
}

/// The ID of the leftmost `🆔` that is followed by whitespace and an ID.
pub open spec fn id_of(text: Seq<char>) -> Option<Seq<char>> {
    id_from(text, 0)
}

/// The first priority emoji found, checked from highest to lowest.
pub open spec fn priority_of(text: Seq<char>) -> Option<Priority> {
    if text.contains('🔺') {
        Some(Priority::Highest)
    } else if text.contains('⏫') {
        Some(Priority::High)
    } else if text.contains('🔼') {
        Some(Priority::Medium)
    } else if text.contains('🔽') {
        Some(Priority::Low)
    } else if text.contains('⏬') {
        Some(Priority::Lowest)
    } else {
        None
    }
}

pub open spec fn is_tag_word(w: Seq<char>) -> bool {
    w.len() > 1 && w[0] == '#'
}

pub open spec fn is_tag_punct(c: char) -> bool {
    c == ',' || c == '.' || c == ';'
}

pub open spec fn trail_punct(w: Seq<char>) -> nat
    decreases w.len(),
{
    if w.len() > 0 && is_tag_punct(w.last()) {
        1 + trail_punct(w.drop_last())
    } else {
        0
    }
}

/// A tag word without its trailing `,`, `.` and `;`.
pub open spec fn tag_of_word(w: Seq<char>) -> Seq<char> {
    w.take(w.len() - trail_punct(w))
}

pub open spec fn tags_of_words(ws: Seq<Seq<char>>) -> Seq<Seq<char>>
    decreases ws.len(),
{
    if ws.len() == 0 {
        seq![]
    } else {
        tags_of_words(ws.drop_last()) + if is_tag_word(ws.last()) {
            seq![tag_of_word(ws.last())]
        } else {
            seq![]
        }
    }
}

/// The tags of a text: words of two or more characters that start with `#`.
pub open spec fn tags_of(text: Seq<char>) -> Seq<Seq<char>> {
    tags_of_words(words(text))
}

/// The rest of the first tag that starts with `prefix`.
pub open spec fn first_with_prefix(tags: Seq<Seq<char>>, prefix: Seq<char>) -> Option<Seq<char>>
    decreases tags.len(),
{
    if tags.len() == 0 {
        None
    } else if starts_with(tags[0], prefix) {
        Some(tags[0].skip(prefix.len() as int))
    } else {
        first_with_prefix(tags.drop_first(), prefix)
    }
}

pub open spec fn dashes_to_spaces(o: Option<Seq<char>>) -> Option<Seq<char>> {
    match o {
        Some(s) => Some(replace_char(s, '-', ' ')),
        None => None,
    }
}

/// The project named by the first `#project/<name>` tag, with `-` read as a space.
pub open spec fn project_of(tags: Seq<Seq<char>>) -> Option<Seq<char>> {
    dashes_to_spaces(first_with_prefix(tags, "#project/"@))
}

/// `c` matches the lower-case ASCII letter `l` ignoring case.
pub open spec fn ci_char(c: char, l: char) -> bool {
    c == l || c as u32 + 32 == l as u32
}

pub open spec fn ci_prefix(s: Seq<char>, w: Seq<char>) -> bool {
    w.len() <= s.len() && forall|i: int| 0 <= i < w.len() ==> ci_char(#[trigger] s[i], w[i])
}

/// Where the name starts in a text that opens, ignoring case, with
/// `waiting on ` or `waiting for `; zero when it does not.
pub open spec fn waiting_start(text: Seq<char>) -> int {
    if ci_prefix(text, "waiting"@) && text.len() > 7 && text[7] == ' ' {
        let rest = text.skip(8);
        if ci_prefix(rest, "on"@) && rest.len() > 2 && rest[2] == ' ' {
            11
        } else if ci_prefix(rest, "for"@) && rest.len() > 3 && rest[3] == ' ' {
            12
        } else {
            0
        }
    } else {
        0
    }
}

/// The name in a text that starts, ignoring case, with `waiting on <name>:`
/// or `waiting for <name>:`; the name is trimmed.
pub open spec fn waiting_name(text: Seq<char>) -> Option<Seq<char>> {
    let s = waiting_start(text);
    if s == 0 {
        None
    } else {
        match find_char(text.skip(s), ':') {
            Some(j) => if j >= 1 {
                Some(trim(text.skip(s).take(j)))
            } else {
                None
            },
            None => None,
        }
    }
}

/// The person a task waits on: from its `Waiting on/for <name>:` opening,
/// else from its first `#waiting/<name>` tag with `-` read as a space.
pub open spec fn person_of(text: Seq<char>, tags: Seq<Seq<char>>) -> Option<Seq<char>> {
    match waiting_name(text) {
        Some(n) => Some(n),
        None => dashes_to_spaces(first_with_prefix(tags, "#waiting/"@)),
    }
}

/// The task that a line holds, if it is a task line.
pub open spec fn parse_task_spec(path: Seq<char>, line_number: usize, line: Seq<char>) -> Option<
    TaskView,
> {
    match task_head(line) {
        None => None,
        Some(k) => {
            let text = line.skip(k + 6);
            Some(
                TaskView {
                    path,
                    line_number,
                    indent: line.take(k),
                    marker: line[k],
                    status: line[k + 3],
                    text,
                    raw: line,
                    due: date_after(text, '📅'),
                    scheduled: date_after(text, '⏳'),
                    start: date_after(text, '🛫'),
                    created: date_after(text, '➕'),
                    done: date_after(text, '✅'),
                    id: id_of(text),
                    priority: priority_of(text),
                    tags: tags_of(text),
                    person: person_of(text, tags_of(text)),
                    project: project_of(tags_of(text)),
                },
            )
        },
    }
}

pub open spec fn opt_task_view(o: Option<Task>) -> Option<TaskView> {
    match o {
        Some(t) => Some(t@),
        None => None,
    }
}

impl TaskView {
    pub open spec fn is_open(self) -> bool {
        self.status == ' ' || self.status == '/'
    }

    pub open spec fn is_done(self) -> bool {
        self.status == 'x' || self.status == 'X'
    }

    pub open spec fn is_waiting(self) -> bool {
        exists|i: int|
            0 <= i < self.tags.len() && (#[trigger] self.tags[i] == "#waiting"@ || starts_with(
                self.tags[i],
                "#waiting/"@,
            ))
    }

    /// `🆔 <id>` when the task has an ID, else `<path>:<line>`.
    pub open spec fn source_ref(self) -> Seq<char> {
        match self.id {
            Some(id) => seq!['🆔', ' '] + id,
            None => self.path + seq![':'] + decimal(self.line_number as nat),
        }
    }
}

// ---------------------------------------------------------------------------
// Executable parsing
// ---------------------------------------------------------------------------
fn task_head_exec(v: &Vec<char>) -> (r: Option<usize>)
    ensures
        r == (match task_head(v@) {
            Some(k) => Some(k as usize),
            None => None::<usize>,
        }),
{
    let k = ws_run_end(v, 0);
    proof {
        assert(v@.skip(0) =~= v@);
    }
    if v.len() - k < 6 {
        return None;
    }
    let m = v[k];
    if !(m == '-' || m == '*' || m == '+') || v[k + 1] != ' ' || v[k + 2] != '[' || v[k + 3]
        == '\n' || v[k + 4] != ']' || v[k + 5] != ' ' {
        return None;
    }
    let nl = find_char_from(v, '\n', k + 6);
    proof {
        lemma_find_char(v@.skip(k + 6), '\n');
    }
    if nl.is_some() {
        None
    } else {
        Some(k)
    }
}

/// Characters up to and from an index, as a fresh vector.
fn tail(v: &Vec<char>, from: usize) -> (r: Vec<char>)
    requires
        from <= v.len(),
    ensures
        r@ == v@.skip(from as int),
{
    let r = slice(v, from, v.len());
    assert(r@ =~= v@.skip(from as int));
    r
}

fn date_after_exec(text: &Vec<char>, marker: char) -> (r: Option<Date>)
    ensures
        r == date_after(text@, marker),
        r matches Some(d) ==> d.wf(),
        date_read_back(text@, marker, r),
{
    proof {
        reveal(date_piece);
    }
    let p = match find_char_from(text, marker, 0) {
        Some(p) => p,
        None => {
            proof {
                assert(text@.skip(0) =~= text@);
            }
            return None;
        },
    };
    proof {
        assert(text@.skip(0) =~= text@);
        lemma_find_char(text@, marker);
    }
    let a = ws_run_end(text, p + 1);
    let ghost rest = trim_start(text@.skip(p + 1));
    proof {
        assert(rest =~= text@.skip(a as int));
    }
    match byte_prefix_exec(text, a, 10) {
        None => None,
        Some(k) => {
            proof {
                lemma_byte_prefix_bound(text@.skip(a as int), 10);
            }
            let piece = slice(text, a, a + k);
            proof {
                assert(piece@ =~= rest.take(k as int));
            }
            let s = string_of(&piece);
            parse_ymd(s.as_str())
        },
    }
}

fn id_at_exec(text: &Vec<char>, i: usize) -> (r: Option<Vec<char>>)
    requires
        i < text.len(),
    ensures
        match r {
            Some(v) => id_at(text@, i as int) == Some(v@),
            None => id_at(text@, i as int) is None,
        },
{
    if text[i] != '🆔' {
        return None;
    }
    let s = ws_run_end(text, i + 1);
    if s > i + 1 && s < text.len() {
        let e = nonws_run_end(text, s);
        Some(slice(text, s, e))
    } else {
        None
    }
}

fn id_of_exec(text: &Vec<char>) -> (r: Option<Vec<char>>)
    ensures
        match r {
            Some(v) => id_of(text@) == Some(v@),
            None => id_of(text@) is None,
        },
{
    let mut i: usize = 0;
    while i < text.len()
        invariant
            i <= text.len(),
            id_of(text@) == id_from(text@, i as int),
        decreases text.len() - i,
    {
        match id_at_exec(text, i) {
            Some(v) => {
                return Some(v);
            },
            None => {},
        }
        i += 1;
    }
    None
}

fn priority_of_exec(text: &Vec<char>) -> (r: Option<Priority>)
    ensures
        r == priority_of(text@),
{
    if contains_char(text, '🔺') {
        Some(Priority::Highest)
    } else if contains_char(text, '⏫') {
        Some(Priority::High)
    } else if contains_char(text, '🔼') {
        Some(Priority::Medium)
    } else if contains_char(text, '🔽') {
        Some(Priority::Low)
    } else if contains_char(text, '⏬') {
        Some(Priority::Lowest)
    } else {
        None
    }
}

proof fn lemma_trail_punct_run(w: Seq<char>, j: int, i: int)
    requires
        0 <= i <= j <= w.len(),
        forall|k: int| i <= k < j ==> is_tag_punct(#[trigger] w[k]),
        i == 0 || !is_tag_punct(w[i - 1]),
    ensures
        trail_punct(w.take(j)) == j - i,
    decreases j - i,
{
    if i < j {
        assert(w.take(j).drop_last() =~= w.take(j - 1));
        lemma_trail_punct_run(w, j - 1, i);
    }
}

fn tag_of_word_exec(w: &Vec<char>) -> (r: Vec<char>)
    ensures
        r@ == tag_of_word(w@),
{
    let mut e = w.len();
    while e > 0 && (w[e - 1] == ',' || w[e - 1] == '.' || w[e - 1] == ';')
        invariant
            e <= w.len(),
            forall|k: int| e <= k < w.len() ==> is_tag_punct(#[trigger] w@[k]),
        decreases e,
    {
        e -= 1;
    }
    proof {
        lemma_trail_punct_run(w@, w.len() as int, e as int);
        assert(w@.take(w.len() as int) =~= w@);
    }
    slice(w, 0, e)
}

fn string_of_chars_vec(ws: &Vec<Vec<char>>) -> (r: Vec<String>)
    ensures
        string_views(r@) == views(ws@),
{
    let mut r: Vec<String> = Vec::new();
    let mut i: usize = 0;
    while i < ws.len()
        invariant
            i <= ws.len(),
            string_views(r@) == views(ws@).take(i as int),
        decreases ws.len() - i,
    {
        let s = string_of(&ws[i]);
        let ghost old_r = r@;
        r.push(s);
        proof {
            assert(views(ws@)[i as int] == ws@[i as int]@);
            assert(r@ =~= old_r.push(s));
            assert(string_views(r@) =~= string_views(old_r).push(s@));
            assert(string_views(r@) =~= views(ws@).take(i + 1));
        }
        i += 1;
    }
    assert(views(ws@).take(ws.len() as int) =~= views(ws@));
    r
}

fn tags_of_exec(text: &Vec<char>) -> (r: Vec<Vec<char>>)
    ensures
        views(r@) == tags_of(text@),
{
    let ws = split_words(text);
    let mut r: Vec<Vec<char>> = Vec::new();
    let mut i: usize = 0;
    while i < ws.len()
        invariant
            i <= ws.len(),
            views(ws@) == words(text@),
            views(r@) == tags_of_words(views(ws@).take(i as int)),
        decreases ws.len() - i,
    {
        let ghost old_r = r@;
        let w = &ws[i];
        proof {
            assert(views(ws@).take(i + 1).drop_last() =~= views(ws@).take(i as int));
            assert(views(ws@).take(i + 1).last() == w@);
        }
        if w.len() > 1 && w[0] == '#' {
            let t = tag_of_word_exec(w);
            r.push(t);
            proof {
                assert(r@ =~= old_r.push(t));
                assert(views(r@) =~= views(old_r).push(t@));
                assert(views(r@) =~= tags_of_words(views(ws@).take(i + 1)));
            }
        } else {
            proof {
                assert(views(r@) =~= tags_of_words(views(ws@).take(i + 1)));
            }
        }
        i += 1;
    }
    assert(views(ws@).take(ws.len() as int) =~= views(ws@));
    r
}

fn first_with_prefix_exec(tags: &Vec<Vec<char>>, prefix: &Vec<char>) -> (r: Option<Vec<char>>)
    ensures
        match r {
            Some(v) => first_with_prefix(views(tags@), prefix@) == Some(v@),
            None => first_with_prefix(views(tags@), prefix@) is None,
        },
{
    let mut i: usize = 0;
    assert(views(tags@).skip(0) =~= views(tags@));
    while i < tags.len()
        invariant
            i <= tags.len(),
            first_with_prefix(views(tags@), prefix@) == first_with_prefix(
                views(tags@).skip(i as int),
                prefix@,
            ),
        decreases tags.len() - i,
    {
        proof {
            assert(views(tags@).skip(i as int)[0] == tags@[i as int]@);
            assert(views(tags@).skip(i as int).drop_first() =~= views(tags@).skip(i + 1));
        }
        if has_prefix(&tags[i], prefix) {
            return Some(tail(&tags[i], prefix.len()));
        }
        i += 1;
    }
    None
}

fn dashes_to_spaces_exec(o: Option<Vec<char>>) -> (r: Option<String>)
    ensures
        opt_view(r) == dashes_to_spaces(match o {
            Some(v) => Some(v@),
            None => None::<Seq<char>>,
        }),
{
    match o {
        Some(v) => Some(string_of(&replace_char_exec(&v, '-', ' '))),
        None => None,
    }
}

fn ci_prefix_exec(v: &Vec<char>, from: usize, w: &str) -> (r: bool)
    requires
        from <= v.len(),
    ensures
        r == ci_prefix(v@.skip(from as int), w@),
{
    let wc = chars_of(w);
    if wc.len() > v.len() - from {
        return false;
    }
    let mut i: usize = 0;
    while i < wc.len()
        invariant
            wc@ == w@,
            from + wc.len() <= v.len(),
            i <= wc.len(),
            forall|k: int| 0 <= k < i ==> ci_char(#[trigger] v@.skip(from as int)[k], w@[k]),
        decreases wc.len() - i,
    {
        let c = v[from + i];
        let l = wc[i];
        if !(c == l || (c as u32) as u64 + 32 == (l as u32) as u64) {
            proof {
                assert(v@.skip(from as int)[i as int] == c);
            }
            return false;
        }
        proof {
            assert(v@.skip(from as int)[i as int] == c);
        }
        i += 1;
    }
    true
}

fn waiting_start_exec(text: &Vec<char>) -> (r: usize)
    ensures
        r == waiting_start(text@),
{
    proof {
        assert(text@.skip(0) =~= text@);
    }
    if !(ci_prefix_exec(text, 0, "waiting") && text.len() > 7 && text[7] == ' ') {
        return 0;
    }
    let ghost rest = text@.skip(8);
    proof {
        assert(rest.len() > 2 ==> rest[2] == text@[10]);
        assert(rest.len() > 3 ==> rest[3] == text@[11]);
    }
    if ci_prefix_exec(text, 8, "on") && text.len() > 10 && text[10] == ' ' {
        11
    } else if ci_prefix_exec(text, 8, "for") && text.len() > 11 && text[11] == ' ' {
        12
    } else {
        0
    }
}

fn waiting_name_exec(text: &Vec<char>) -> (r: Option<Vec<char>>)
    ensures
        match r {
            Some(v) => waiting_name(text@) == Some(v@),
            None => waiting_name(text@) is None,
        },
{
    let start = waiting_start_exec(text);
    if start == 0 {
        return None;
    }
    proof {
        lemma_find_char(text@.skip(start as int), ':');
    }
    match find_char_from(text, ':', start) {
        Some(j) => {
            if j > start {
                let name = slice(text, start, j);
                proof {
                    assert(name@ =~= text@.skip(start as int).take(j - start));
                }
                Some(trim_chars(&name))
            } else {
                None
            }
        },
        None => None,
    }
}

fn opt_string(o: Option<Vec<char>>) -> (r: Option<String>)
    ensures
        opt_view(r) == (match o {
            Some(v) => Some(v@),
            None => None::<Seq<char>>,
        }),
{
    match o {
        Some(v) => Some(string_of(&v)),
        None => None,
    }
}

/// Reads a Markdown checkbox task from one line.
pub fn parse_task_line(path: String, line_number: usize, line: &str) -> (r: Option<Task>)
    ensures
        opt_task_view(r) == parse_task_spec(path@, line_number, line@),
        r matches Some(t) ==> {
            &&& (t.due matches Some(d) ==> d.wf())
            &&& (t.scheduled matches Some(d) ==> d.wf())
            &&& (t.start matches Some(d) ==> d.wf())
            &&& (t.created matches Some(d) ==> d.wf())
            &&& (t.done matches Some(d) ==> d.wf())
            &&& date_read_back(t.text@, '📅', t.due)
            &&& date_read_back(t.text@, '⏳', t.scheduled)
            &&& date_read_back(t.text@, '🛫', t.start)
            &&& date_read_back(t.text@, '➕', t.created)
            &&& date_read_back(t.text@, '✅', t.done)
        },
{
    let v = chars_of(line);
    let k = match task_head_exec(&v) {
        Some(k) => k,
        None => {
            return None;
        },
    };
    let text = tail(&v, k + 6);
    let tags = tags_of_exec(&text);
    let project_chars = first_with_prefix_exec(&tags, &chars_of("#project/"));
    let project = dashes_to_spaces_exec(project_chars);
    let person = match waiting_name_exec(&text) {
        Some(n) => Some(string_of(&n)),
        None => dashes_to_spaces_exec(first_with_prefix_exec(&tags, &chars_of("#waiting/"))),
    };
    let t = Task {
        path,
        line_number,
        indent: string_of(&slice(&v, 0, k)),
        marker: v[k],
        status: v[k + 3],
        text: string_of(&text),
        raw: string_of(&v),
        due: date_after_exec(&text, '📅'),
        scheduled: date_after_exec(&text, '⏳'),
        start: date_after_exec(&text, '🛫'),
        created: date_after_exec(&text, '➕'),
        done: date_after_exec(&text, '✅'),
        id: opt_string(id_of_exec(&text)),
        priority: priority_of_exec(&text),
        tags: string_of_chars_vec(&tags),
        person,
        project,
    };
    proof {
        assert(t@.indent =~= line@.take(k as int));
        assert(t@ == parse_task_spec(path@, line_number, line@).unwrap());
    }
    Some(t)
}


// ---------------------------------------------------------------------------
// Task queries
// ---------------------------------------------------------------------------
impl Task {
    pub fn is_open(&self) -> (r: bool)
        ensures
            r == self@.is_open(),
    {
        self.status == ' ' || self.status == '/'
    }

    pub fn is_done(&self) -> (r: bool)
        ensures
            r == self@.is_done(),
    {
        self.status == 'x' || self.status == 'X'
    }

    /// Whether the task carries `#waiting` or a `#waiting/<name>` tag.
    pub fn is_waiting(&self) -> (r: bool)
        ensures
            r == self@.is_waiting(),
    {
        let prefix = chars_of("#waiting/");
        let mut i: usize = 0;
        while i < self.tags.len()
            invariant
                i <= self.tags.len(),
                prefix@ == "#waiting/"@,
                forall|k: int|
                    0 <= k < i ==> !(#[trigger] self@.tags[k] == "#waiting"@ || starts_with(
                        self@.tags[k],
                        "#waiting/"@,
                    )),
            decreases self.tags.len() - i,
        {
            let tag = &self.tags[i];
            proof {
                assert(self@.tags[i as int] == tag@);
            }
            if str_is(tag.as_str(), "#waiting") || has_prefix(&chars_of(tag.as_str()), &prefix) {
                return true;
            }
            i += 1;
        }
        false
    }

    /// `🆔 <id>` when the task has an ID, else `<path>:<line>`.
    pub fn source_ref(&self) -> (r: String)
        ensures
            r@ == self@.source_ref(),
    {
        let mut v: Vec<char> = Vec::new();
        match &self.id {
            Some(id) => {
                v.push('🆔');
                v.push(' ');
                extend_str(&mut v, id.as_str());
            },
            None => {
                extend_str(&mut v, self.path.as_str());
                v.push(':');
                let d = decimal_chars(self.line_number as u64);
                extend(&mut v, &d);
            },
        }
        proof {
            assert(v@ =~= self@.source_ref());
        }
        string_of(&v)
    }

    /// A copy of the task with the same content.
    pub fn duplicate(&self) -> (r: Task)
        ensures
            r@ == self@,
    {
        let mut tags: Vec<String> = Vec::new();
        let mut i: usize = 0;
        while i < self.tags.len()
            invariant
                i <= self.tags.len(),
                string_views(tags@) == string_views(self.tags@).take(i as int),
            decreases self.tags.len() - i,
        {
            let t = self.tags[i].clone();
            let ghost old_tags = tags@;
            tags.push(t);
            proof {
                assert(tags@ =~= old_tags.push(t));
                assert(string_views(tags@) =~= string_views(old_tags).push(t@));
                assert(string_views(tags@) =~= string_views(self.tags@).take(i + 1));
            }
            i += 1;
        }
        assert(string_views(self.tags@).take(self.tags.len() as int) =~= string_views(
            self.tags@,
        ));
        Task {
            path: self.path.clone(),
            line_number: self.line_number,
            indent: self.indent.clone(),
            marker: self.marker,
            status: self.status,
            text: self.text.clone(),
            raw: self.raw.clone(),
            due: self.due,
            scheduled: self.scheduled,
            start: self.start,
            created: self.created,
            done: self.done,
            id: self.id.clone(),
            priority: self.priority,
            tags,
            person: self.person.clone(),
            project: self.project.clone(),
        }
    }
}

// ---------------------------------------------------------------------------
// Building task lines
// ---------------------------------------------------------------------------
/// What `str::to_lowercase` yields for a text.
pub uninterp spec fn lowercase(s: Seq<char>) -> Seq<char>;

/// An ASCII letter's lower-case form; any other character stays.
pub open spec fn ascii_lower(c: char) -> char {
    if 'A' <= c && c <= 'Z' {
        ((c as u32) + 32) as char
    } else {
        c
    }
}

pub open spec fn all_ascii(s: Seq<char>) -> bool {
    forall|i: int| 0 <= i < s.len() ==> (#[trigger] s[i] as u32) < 128
}

/// Calls `str::to_lowercase`.
///
/// Claims: the result is the named lower-case form of the text, and for a
/// text of ASCII characters alone it is that text with `A`..`Z` turned into
/// `a`..`z` (the Unicode lower-case mapping of ASCII, which the method
/// follows). The Unicode case mapping of other characters is left unsaid.
#[verifier::external_body]
pub(crate) fn to_lowercase(s: &str) -> (r: String)
    ensures
        r@ == lowercase(s@),
        all_ascii(s@) ==> r@ == s@.map_values(|c: char| ascii_lower(c)),
{
    s.to_lowercase()
}

pub open spec fn is_ascii_alnum(c: char) -> bool {
    ('0' <= c && c <= '9') || ('a' <= c && c <= 'z') || ('A' <= c && c <= 'Z')
}

pub open spec fn slug_char(c: char) -> char {
    if is_ascii_alnum(c) {
        c
    } else {
        '-'
    }
}

/// A project slug: the trimmed, lower-cased name with every character other
/// than an ASCII letter or digit read as `-`, runs of `-` collapsed and `-`
/// removed from both ends.
pub open spec fn slug_spec(value: Seq<char>) -> Seq<char> {
    join_with(segments(lowercase(trim(value)).map_values(|c: char| slug_char(c)), '-'), '-')
}

pub fn slug(value: &str) -> (r: String)
    ensures
        r@ == slug_spec(value@),
        all_ascii(trim(value@)) ==> r@ == join_with(
            segments(trim(value@).map_values(|c: char| slug_char(ascii_lower(c))), '-'),
            '-',
        ),
{
    let trimmed = trim_chars(&chars_of(value));
    let lower = to_lowercase(string_of(&trimmed).as_str());
    proof {
        if all_ascii(trim(value@)) {
            assert(lowercase(trim(value@)).map_values(|c: char| slug_char(c)) =~= trim(
                value@,
            ).map_values(|c: char| slug_char(ascii_lower(c))));
        }
    }
    let lc = chars_of(lower.as_str());
    let mut mapped: Vec<char> = Vec::new();
    let mut i: usize = 0;
    while i < lc.len()
        invariant
            i <= lc.len(),
            mapped@ == lc@.take(i as int).map_values(|c: char| slug_char(c)),
        decreases lc.len() - i,
    {
        let c = lc[i];
        let is_alnum = ('0' <= c && c <= '9') || ('a' <= c && c <= 'z') || ('A' <= c && c <= 'Z');
        mapped.push(if is_alnum { c } else { '-' });
        i += 1;
        assert(mapped@ =~= lc@.take(i as int).map_values(|c: char| slug_char(c)));
    }
    assert(lc@.take(lc.len() as int) =~= lc@);
    let segs = split_segments(&mapped, '-');
    string_of(&join_with_exec(&segs, '-'))
}

pub open spec fn opt_str(o: Option<&str>) -> Option<Seq<char>> {
    match o {
        Some(s) => Some(s@),
        None => None,
    }
}

/// The task text, led by `Waiting on <person>: ` for a waiting task with a person.
pub open spec fn waiting_lead(text: Seq<char>, person: Option<Seq<char>>, waiting: bool) -> Seq<
    char,
> {
    if waiting && person is Some {
        "Waiting on "@ + person.unwrap() + ": "@ + text
    } else {
        text
    }
}

pub open spec fn priority_part(p: Option<Priority>) -> Seq<char> {
    match p {
        Some(p) => seq![' ', priority_emoji(p)],
        None => seq![],
    }
}

/// ` <marker> YYYY-MM-DD` for a present date.
pub open spec fn date_part(marker: char, d: Option<Date>) -> Seq<char> {
    match d {
        Some(d) => seq![' ', marker, ' '] + d.text(),
        None => seq![],
    }
}

pub open spec fn with_waiting_tag(c: Seq<char>, waiting: bool) -> Seq<char> {
    if waiting && find_sub(c, "#waiting"@) is None {
        c + " #waiting"@
    } else {
        c
    }
}

pub open spec fn with_project(c: Seq<char>, project: Option<Seq<char>>) -> Seq<char> {
    match project {
        Some(p) => c + " #project/"@ + slug_spec(p),
        None => c,
    }
}

pub open spec fn with_id(c: Seq<char>, id: Option<Seq<char>>) -> Seq<char> {
    match id {
        Some(i) => if c.contains('🆔') {
            c
        } else {
            c + seq![' ', '🆔', ' '] + i
        },
        None => c,
    }
}

/// The checkbox line that capture writes: the text (led by `Waiting on
/// <person>: ` for waiting tasks), the priority emoji, the start, scheduled
/// and due dates, `#waiting` unless the text already holds it, the project
/// tag, and the ID unless a `🆔` is already there.
pub open spec fn task_line_spec(
    text: Seq<char>,
    due: Option<Date>,
    scheduled: Option<Date>,
    start: Option<Date>,
    priority: Option<Priority>,
    person: Option<Seq<char>>,
    project: Option<Seq<char>>,
    waiting: bool,
    id: Option<Seq<char>>,
) -> Seq<char> {
    let core = waiting_lead(text, person, waiting) + priority_part(priority) + date_part(
        '🛫',
        start,
    ) + date_part('⏳', scheduled) + date_part('📅', due);
    "- [ ] "@ + with_id(with_project(with_waiting_tag(core, waiting), project), id)
}

pub open spec fn opt_date_wf(d: Option<Date>) -> bool {
    d matches Some(x) ==> x.wf()
}

fn push_date_part(v: &mut Vec<char>, marker: char, d: Option<Date>)
    requires
        opt_date_wf(d),
    ensures
        final(v)@ == old(v)@ + date_part(marker, d),
{
    match d {
        Some(d) => {
            v.push(' ');
            v.push(marker);
            v.push(' ');
            let t = d.text_chars();
            extend(v, &t);
        },
        None => {},
    }
    assert(v@ =~= old(v)@ + date_part(marker, d));
}

#[verifier::rlimit(30)]
pub fn build_task_line_with_id(
    text: &str,
    due: Option<Date>,
    scheduled: Option<Date>,
    start: Option<Date>,
    priority: Option<Priority>,
    person: Option<&str>,
    project: Option<&str>,
    waiting: bool,
    id: Option<&str>,
) -> (r: String)
    requires
        opt_date_wf(due),
        opt_date_wf(scheduled),
        opt_date_wf(start),
    ensures
        r@ == task_line_spec(
            text@,
            due,
            scheduled,
            start,
            priority,
            opt_str(person),
            opt_str(project),
            waiting,
            opt_str(id),
        ),
{
    let mut c: Vec<char> = Vec::new();
    match person {
        Some(p) => {
            if waiting {
                extend_str(&mut c, "Waiting on ");
                extend_str(&mut c, p);
                extend_str(&mut c, ": ");
            }
        },
        None => {},
    }
    extend_str(&mut c, text);
    proof {
        assert(c@ =~= waiting_lead(text@, opt_str(person), waiting));
    }
    match priority {
        Some(p) => {
            c.push(' ');
            c.push(p.emoji_char());
        },
        None => {},
    }
    proof {
        assert(c@ =~= waiting_lead(text@, opt_str(person), waiting) + priority_part(priority));
    }
    push_date_part(&mut c, '🛫', start);
    push_date_part(&mut c, '⏳', scheduled);
    push_date_part(&mut c, '📅', due);
    if waiting {
        if find_sub_exec(&c, &chars_of("#waiting"), 0).is_none() {
            extend_str(&mut c, " #waiting");
        }
    }
    match project {
        Some(p) => {
            extend_str(&mut c, " #project/");
            let sl = slug(p);
            extend_str(&mut c, sl.as_str());
        },
        None => {},
    }
    match id {
        Some(i) => {
            if !contains_char(&c, '🆔') {
                c.push(' ');
                c.push('🆔');
                c.push(' ');
                extend_str(&mut c, i);
            }
        },
        None => {},
    }
    let mut line: Vec<char> = Vec::new();
    extend_str(&mut line, "- [ ] ");
    extend(&mut line, &c);
    proof {
        assert(line@ =~= task_line_spec(
            text@,
            due,
            scheduled,
            start,
            priority,
            opt_str(person),
            opt_str(project),
            waiting,
            opt_str(id),
        ));
    }
    string_of(&line)
}

// ---------------------------------------------------------------------------
// Task IDs
// ---------------------------------------------------------------------------
pub open spec fn hex_digit(d: int) -> char {
    if d < 10 {
        digit_char(d)
    } else {
        (d - 10 + 97) as char
    }
}

/// Lower-case hexadecimal notation, without leading zeros (`{:x}`).
pub open spec fn hex(n: nat) -> Seq<char>
    decreases n,
{
    if n < 16 {
        seq![hex_digit(n as int)]
    } else {
        hex(n / 16) + seq![hex_digit((n % 16) as int)]
    }
}

/// `f`, then the seconds and the nanoseconds in hexadecimal.
pub open spec fn task_id_text(secs: u64, nanos: u32) -> Seq<char> {
    seq!['f'] + hex(secs as nat) + hex(nanos as nat)
}

fn hex_chars(n: u64) -> (r: Vec<char>)
    ensures
        r@ == hex(n as nat),
    decreases n,
{
    let d = (n % 16) as u32;
    let c = if d < 10 {
        ((d as u8) + 48u8) as char
    } else {
        ((d as u8) + 87u8) as char
    };
    if n < 16 {
        let mut r: Vec<char> = Vec::new();
        r.push(c);
        assert(r@ =~= hex(n as nat));
        r
    } else {
        let mut r = hex_chars(n / 16);
        r.push(c);
        assert(r@ =~= hex(n as nat));
        r
    }
}

/// The task ID for a moment given as seconds and nanoseconds since the epoch.
pub fn task_id_from_time(secs: u64, nanos: u32) -> (r: String)
    ensures
        r@ == task_id_text(secs, nanos),
{
    let mut v: Vec<char> = Vec::new();
    v.push('f');
    let a = hex_chars(secs);
    extend(&mut v, &a);
    let b = hex_chars(nanos as u64);
    extend(&mut v, &b);
    assert(v@ =~= task_id_text(secs, nanos));
    string_of(&v)
}

/// Reads the system clock: `SystemTime::now()` since `UNIX_EPOCH` (zero
/// when the clock is before the epoch), as whole seconds and the
/// sub-second nanoseconds.
///
/// Claims only that the nanoseconds are below one second, as
/// `Duration::subsec_nanos` documents; the time itself is left unsaid.
#[verifier::external_body]
fn clock_now() -> (r: (u64, u32))
    ensures
        r.1 < 1_000_000_000,
{
    let d = std::time::SystemTime::now().duration_since(std::time::UNIX_EPOCH).unwrap_or_default();
    (d.as_secs(), d.subsec_nanos())
}

/// A fresh task ID from the current time.
pub fn generate_task_id() -> (r: String)
    ensures
        exists|secs: u64, nanos: u32| nanos < 1_000_000_000 && r@ == task_id_text(secs, nanos),
{
    let (secs, nanos) = clock_now();
    task_id_from_time(secs, nanos)
}

/// Builds the capture line for a new task, with a fresh ID.
pub fn build_task_line(
    text: &str,
    due: Option<Date>,
    scheduled: Option<Date>,
    start: Option<Date>,
    priority: Option<Priority>,
    person: Option<&str>,
    project: Option<&str>,
    waiting: bool,
) -> (r: String)
    requires
        opt_date_wf(due),
        opt_date_wf(scheduled),
        opt_date_wf(start),
    ensures
        exists|secs: u64, nanos: u32|
            nanos < 1_000_000_000 && r@ == task_line_spec(
                text@,
                due,
                scheduled,
                start,
                priority,
                opt_str(person),
                opt_str(project),
                waiting,
                Some(task_id_text(secs, nanos)),
            ),
{
    let id = generate_task_id();
    build_task_line_with_id(
        text,
        due,
        scheduled,
        start,
        priority,
        person,
        project,
        waiting,
        Some(id.as_str()),
    )
}

// ---------------------------------------------------------------------------
// Single-line edits
// ---------------------------------------------------------------------------
/// Parses a line on its own, with an empty path and line number 1.
pub fn parse_line_only(line: &str) -> (r: Option<Task>)
    ensures
        opt_task_view(r) == parse_task_spec(seq![], 1, line@),
        r matches Some(t) ==> {
            &&& (t.done matches Some(d) ==> d.wf())
            &&& date_read_back(t.text@, '📅', t.due)
            &&& date_read_back(t.text@, '⏳', t.scheduled)
            &&& date_read_back(t.text@, '🛫', t.start)
            &&& date_read_back(t.text@, '➕', t.created)
            &&& date_read_back(t.text@, '✅', t.done)
        },
{
    let empty = String::new();
    proof {
        assert(empty@ =~= Seq::<char>::empty());
    }
    parse_task_line(empty, 1, line)
}

/// The task line marked done: status `x`, and ` ✅ <today>` appended when the
/// task has no done date yet.
pub open spec fn complete_line_spec(line: Seq<char>, today: Date) -> Option<Seq<char>> {
    match parse_task_spec(seq![], 1, line) {
        None => None,
        Some(t) => Some(
            t.indent + seq![t.marker] + " [x] "@ + t.text + if t.done is None {
                seq![' ', '✅', ' '] + today.text()
            } else {
                seq![]
            },
        ),
    }
}

pub fn complete_line(line: &str, today: Date) -> (r: Option<String>)
    requires
        today.wf(),
    ensures
        opt_view(r) == complete_line_spec(line@, today),
{
    let task = match parse_line_only(line) {
        Some(t) => t,
        None => {
            return None;
        },
    };
    let mut v: Vec<char> = Vec::new();
    extend_str(&mut v, task.indent.as_str());
    v.push(task.marker);
    extend_str(&mut v, " [x] ");
    extend_str(&mut v, task.text.as_str());
    if task.done.is_none() {
        v.push(' ');
        v.push('✅');
        v.push(' ');
        let t = today.text_chars();
        extend(&mut v, &t);
    }
    proof {
        assert(v@ =~= complete_line_spec(line@, today).unwrap());
    }
    Some(string_of(&v))
}

/// The task line with ` 🆔 <id>` appended, unless it already has an ID.
pub open spec fn line_with_id_spec(line: Seq<char>, id: Seq<char>) -> Option<Seq<char>> {
    match parse_task_spec(seq![], 1, line) {
        None => None,
        Some(t) => if t.id is Some {
            Some(line)
        } else {
            Some(line + seq![' ', '🆔', ' '] + id)
        },
    }
}

pub fn line_with_id(line: &str, id: &str) -> (r: Option<String>)
    ensures
        opt_view(r) == line_with_id_spec(line@, id@),
{
    let task = match parse_line_only(line) {
        Some(t) => t,
        None => {
            return None;
        },
    };
    if task.id.is_some() {
        return Some(string_of(&chars_of(line)));
    }
    let mut v = chars_of(line);
    v.push(' ');
    v.push('🆔');
    v.push(' ');
    extend_str(&mut v, id);
    proof {
        assert(v@ =~= line@ + seq![' ', '🆔', ' '] + id@);
    }
    Some(string_of(&v))
}

/// The line with the date after the first `marker` replaced, when a date
/// follows it there; otherwise with ` <marker> <date>` appended.
pub open spec fn replace_or_append_date_spec(line: Seq<char>, marker: char, date: Date) -> Seq<
    char,
> {
    let fallback = line + seq![' ', marker, ' '] + date.text();
    match find_char(line, marker) {
        None => fallback,
        Some(p) => {
            let a = p + 1 + lead_ws(line.skip(p + 1));
            match byte_prefix(line.skip(a), 10) {
                None => fallback,
                Some(k) => if chrono_parse_date(line.subrange(a, a + k)) is Some {
                    line.take(a) + date.text() + line.skip(a + k)
                } else {
                    fallback
                },
            }
        },
    }
}

fn replace_or_append_date(line: &Vec<char>, marker: char, date: Date) -> (r: Vec<char>)
    requires
        date.wf(),
    ensures
        r@ == replace_or_append_date_spec(line@, marker, date),
{
    let dt = date.text_chars();
    let mut fallback: Vec<char> = Vec::new();
    extend(&mut fallback, line);
    fallback.push(' ');
    fallback.push(marker);
    fallback.push(' ');
    extend(&mut fallback, &dt);
    proof {
        assert(fallback@ =~= line@ + seq![' ', marker, ' '] + date.text());
        assert(line@.skip(0) =~= line@);
        lemma_find_char(line@, marker);
    }
    let p = match find_char_from(line, marker, 0) {
        None => {
            return fallback;
        },
        Some(p) => p,
    };
    let a = ws_run_end(line, p + 1);
    match byte_prefix_exec(line, a, 10) {
        None => fallback,
        Some(k) => {
            proof {
                lemma_byte_prefix_bound(line@.skip(a as int), 10);
            }
            let piece = string_of(&slice(line, a, a + k));
            if parse_ymd(piece.as_str()).is_some() {
                let mut r = slice(line, 0, a);
                extend(&mut r, &dt);
                let rest = slice(line, a + k, line.len());
                extend(&mut r, &rest);
                proof {
                    assert(r@ =~= line@.take(a as int) + date.text() + line@.skip(a + k));
                }
                r
            } else {
                fallback
            }
        },
    }
}

/// The task line with the scheduled date set.
pub open spec fn line_with_scheduled_spec(line: Seq<char>, date: Date) -> Option<Seq<char>> {
    if parse_task_spec(seq![], 1, line) is Some {
        Some(replace_or_append_date_spec(line, '⏳', date))
    } else {
        None
    }
}

/// The task line with the due date set.
pub open spec fn line_with_due_spec(line: Seq<char>, date: Date) -> Option<Seq<char>> {
    if parse_task_spec(seq![], 1, line) is Some {
        Some(replace_or_append_date_spec(line, '📅', date))
    } else {
        None
    }
}

pub fn line_with_scheduled(line: &str, date: Date) -> (r: Option<String>)
    requires
        date.wf(),
    ensures
        opt_view(r) == line_with_scheduled_spec(line@, date),
{
    if parse_line_only(line).is_none() {
        return None;
    }
    Some(string_of(&replace_or_append_date(&chars_of(line), '⏳', date)))
}

pub fn line_with_due(line: &str, date: Date) -> (r: Option<String>)
    requires
        date.wf(),
    ensures
        opt_view(r) == line_with_due_spec(line@, date),
{
    if parse_line_only(line).is_none() {
        return None;
    }
    Some(string_of(&replace_or_append_date(&chars_of(line), '📅', date)))
}

} // verus!
