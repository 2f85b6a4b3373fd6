//! Law of capture: the line that capture writes is an open task line whose
//! ID and dates read back as given.
use vstd::prelude::*;
use crate::date::{chrono_parse_date, is_digit, lemma_date_text_chars, Date};
use crate::task::{
    date_after, date_part, parse_task_spec, priority_part, slug_char, slug_spec, task_line_spec,
    waiting_lead, with_id, with_project, with_waiting_tag, lowercase, Priority,
};
use crate::task_laws::{
    lemma_date_after_marker, lemma_id_of_appended, lemma_parse_built, task_prefix,
};
use crate::text::{
    is_ws, join_with, lemma_find_char, lemma_lead_not_bound, lead_not, segments, trim,
};

verus! {

/// The characters that capture's own metadata is found by: a line feed,
/// `🆔`, `📅`, `⏳` and `🛫`.
pub open spec fn is_capture_mark(c: char) -> bool {
    c == '\n' || c == '🆔' || c == '📅' || c == '⏳' || c == '🛫'
}

/// Text that holds none of those characters.
pub open spec fn free_of_marks(s: Seq<char>) -> bool {
    forall|i: int| 0 <= i < s.len() ==> !is_capture_mark(#[trigger] s[i])
}

pub proof fn lemma_free_concat(a: Seq<char>, b: Seq<char>)
    requires
        free_of_marks(a),
        free_of_marks(b),
    ensures
        free_of_marks(a + b),
{
    assert forall|i: int| 0 <= i < (a + b).len() implies !is_capture_mark(#[trigger] (a + b)[i]) by {
        if i < a.len() {
            assert((a + b)[i] == a[i]);
        } else {
            assert((a + b)[i] == b[i - a.len()]);
        }
    }
}

pub proof fn lemma_free_lacks(s: Seq<char>, c: char)
    requires
        free_of_marks(s),
        is_capture_mark(c),
    ensures
        !s.contains(c),
{
    if s.contains(c) {
        let i = choose|i: int| 0 <= i < s.len() && s[i] == c;
        assert(!is_capture_mark(s[i]));
    }
}

/// A date's text is digits, `-` and `+`.
pub proof fn lemma_date_free(d: Date)
    requires
        d.wf(),
    ensures
        free_of_marks(d.text()),
{
    lemma_date_text_chars(d);
    assert forall|i: int| 0 <= i < d.text().len() implies !is_capture_mark(#[trigger] d.text()[i]) by {
        if is_digit(d.text()[i]) {
        }
    }
}

/// The pieces of `split` hold only characters of the text.
proof fn lemma_segments_free(s: Seq<char>, sep: char)
    requires
        free_of_marks(s),
    ensures
        forall|i: int| 0 <= i < segments(s, sep).len() ==> free_of_marks(#[trigger] segments(s, sep)[i]),
    decreases s.len(),
{
    if s.len() == 0 {
        assert(segments(s, sep).len() == 0);
    } else {
        assert forall|i: int| 0 <= i < s.len() - 1 implies !is_capture_mark(#[trigger] s.drop_first()[i]) by {
            assert(s.drop_first()[i] == s[i + 1]);
        }
        if s[0] == sep {
            lemma_segments_free(s.drop_first(), sep);
            assert(segments(s, sep) == segments(s.drop_first(), sep));
        } else {
            lemma_lead_not_bound(s, sep);
            let k = lead_not(s, sep) as int;
            assert(k >= 1) by {
                reveal_with_fuel(lead_not, 2);
            }
            assert forall|i: int| 0 <= i < s.len() - k implies !is_capture_mark(#[trigger] s.skip(k)[i]) by {
                assert(s.skip(k)[i] == s[i + k]);
            }
            lemma_segments_free(s.skip(k), sep);
            let segs = segments(s, sep);
            assert(segs == seq![s.take(k)] + segments(s.skip(k), sep));
            assert forall|i: int| 0 <= i < segs.len() implies free_of_marks(#[trigger] segs[i]) by {
                if i == 0 {
                    assert forall|j: int| 0 <= j < s.take(k).len() implies !is_capture_mark(
                        #[trigger] s.take(k)[j],
                    ) by {
                        assert(s.take(k)[j] == s[j]);
                    }
                } else {
                    assert(segs[i] == segments(s.skip(k), sep)[i - 1]);
                }
            }
        }
    }
}

/// Pieces free of the marks, joined with a separator that is not one.
proof fn lemma_join_free(ls: Seq<Seq<char>>, sep: char)
    requires
        !is_capture_mark(sep),
        forall|i: int| 0 <= i < ls.len() ==> free_of_marks(#[trigger] ls[i]),
    ensures
        free_of_marks(join_with(ls, sep)),
    decreases ls.len(),
{
    if ls.len() > 1 {
        assert forall|i: int| 0 <= i < ls.drop_last().len() implies free_of_marks(
            #[trigger] ls.drop_last()[i],
        ) by {
            assert(ls.drop_last()[i] == ls[i]);
        }
        lemma_join_free(ls.drop_last(), sep);
        assert(free_of_marks(ls.last()));
        lemma_free_concat(join_with(ls.drop_last(), sep), seq![sep]);
        lemma_free_concat(join_with(ls.drop_last(), sep) + seq![sep], ls.last());
    } else if ls.len() == 1 {
        assert(free_of_marks(ls[0]));
    }
}

/// A project slug holds ASCII letters, digits and `-` only.
pub proof fn lemma_slug_free(p: Seq<char>)
    ensures
        free_of_marks(slug_spec(p)),
{
    let mapped = lowercase(trim(p)).map_values(|c: char| slug_char(c));
    assert forall|i: int| 0 <= i < mapped.len() implies !is_capture_mark(#[trigger] mapped[i]) by {
        let c = lowercase(trim(p))[i];
        assert(mapped[i] == slug_char(c));
    }
    lemma_segments_free(mapped, '-');
    lemma_join_free(segments(mapped, '-'), '-');
}

proof fn lemma_literal_free(s: Seq<char>)
    requires
        forall|i: int| 0 <= i < s.len() ==> #[trigger] s[i] == ' ' || s[i] == '#' || s[i] == '/'
            || s[i] == ':' || ('a' <= s[i] && s[i] <= 'z') || s[i] == 'W',
    ensures
        free_of_marks(s),
{
}

/// A date part holds its own marker and otherwise none of the marks.
proof fn lemma_date_part_free(marker: char, d: Option<Date>)
    requires
        d matches Some(x) ==> x.wf(),
        is_capture_mark(marker),
    ensures
        only_mark(date_part(marker, d), marker),
{
    match d {
        Some(x) => {
            lemma_date_free(x);
            let dp = date_part(marker, d);
            assert forall|i: int| 0 <= i < dp.len() implies #[trigger] dp[i] == marker
                || !is_capture_mark(dp[i]) by {
                if i >= 3 {
                    assert(dp[i] == x.text()[i - 3]);
                }
            }
        },
        None => {},
    }
}

/// Text whose marks are all `marker` lacks every other mark.
proof fn lemma_only_mark_lacks(s: Seq<char>, marker: char, c: char)
    requires
        only_mark(s, marker),
        is_capture_mark(c),
        c != marker,
    ensures
        !s.contains(c),
{
    if s.contains(c) {
        let i = choose|i: int| 0 <= i < s.len() && s[i] == c;
        assert(s[i] == marker || !is_capture_mark(s[i]));
    }
}

proof fn lemma_priority_free(p: Option<Priority>)
    ensures
        free_of_marks(priority_part(p)),
{
}

/// The date that `date_after` reads behind `marker` in capture's text:
/// none without a date, else what chrono parses from the date's text.
pub open spec fn read_back(d: Option<Date>) -> Option<Date> {
    match d {
        Some(x) => chrono_parse_date(x.text()),
        None => None,
    }
}

/// The date after `marker` in `pre + part + post`, when `pre` holds no
/// `marker`, `part` is the date part of `marker` and `post` holds no
/// `marker` where `part` is empty.
proof fn lemma_read_date(pre: Seq<char>, marker: char, d: Option<Date>, post: Seq<char>)
    requires
        !pre.contains(marker),
        is_capture_mark(marker),
        marker != '\n',
        d matches Some(x) ==> x.wf() && 0 <= x.year <= 9999,
        d is None ==> !post.contains(marker),
    ensures
        date_after(pre + date_part(marker, d) + post, marker) == read_back(d),
{
    match d {
        Some(x) => {
            lemma_date_after_marker(pre, marker, x, post);
            assert(pre + date_part(marker, d) + post =~= pre + seq![' ', marker, ' '] + x.text()
                + post);
        },
        None => {
            reveal(crate::task::date_piece);
            let s = pre + date_part(marker, d) + post;
            assert(s =~= pre + post);
            if s.contains(marker) {
                let i = choose|i: int| 0 <= i < s.len() && s[i] == marker;
                if i < pre.len() {
                    assert(pre[i] == marker);
                } else {
                    assert(post[i - pre.len()] == marker);
                }
            }
            lemma_find_char(s, marker);
        },
    }
}

/// The text of a task, led by `Waiting on <person>: ` where it applies,
/// then its priority emoji, holds none of the marks.
proof fn lemma_lead_free(
    text: Seq<char>,
    person: Option<Seq<char>>,
    waiting: bool,
    priority: Option<Priority>,
)
    requires
        free_of_marks(text),
        person matches Some(p) ==> free_of_marks(p),
    ensures
        free_of_marks(waiting_lead(text, person, waiting) + priority_part(priority)),
{
    reveal_strlit("Waiting on ");
    reveal_strlit(": ");
    let lead = waiting_lead(text, person, waiting);
    assert(free_of_marks(lead)) by {
        if waiting && person is Some {
            lemma_literal_free("Waiting on "@);
            lemma_literal_free(": "@);
            lemma_free_concat("Waiting on "@, person.unwrap());
            lemma_free_concat("Waiting on "@ + person.unwrap(), ": "@);
            lemma_free_concat("Waiting on "@ + person.unwrap() + ": "@, text);
        }
    }
    lemma_priority_free(priority);
    lemma_free_concat(lead, priority_part(priority));
}

/// The `#waiting` tag and the project tag that capture adds.
pub open spec fn tag_parts(core: Seq<char>, waiting: bool, project: Option<Seq<char>>) -> (
    Seq<char>,
    Seq<char>,
) {
    let wt: Seq<char> = if waiting && crate::text::find_sub(core, "#waiting"@) is None {
        " #waiting"@
    } else {
        seq![]
    };
    let pj: Seq<char> = match project {
        Some(p) => " #project/"@ + slug_spec(p),
        None => seq![],
    };
    (wt, pj)
}

/// The tags that capture adds, together.
pub open spec fn tag_suffix(core: Seq<char>, waiting: bool, project: Option<Seq<char>>) -> Seq<char> {
    tag_parts(core, waiting, project).0 + tag_parts(core, waiting, project).1
}

proof fn lemma_tag_parts(core: Seq<char>, waiting: bool, project: Option<Seq<char>>)
    ensures
        free_of_marks(tag_parts(core, waiting, project).0),
        free_of_marks(tag_parts(core, waiting, project).1),
{
    reveal_strlit(" #waiting");
    reveal_strlit(" #project/");
    lemma_literal_free(" #waiting"@);
    if let Some(p) = project {
        lemma_literal_free(" #project/"@);
        lemma_slug_free(p);
        lemma_free_concat(" #project/"@, slug_spec(p));
    }
}

proof fn lemma_tags_free(core: Seq<char>, waiting: bool, project: Option<Seq<char>>)
    ensures
        with_project(with_waiting_tag(core, waiting), project) == core + tag_suffix(
            core,
            waiting,
            project,
        ),
{
    reveal_strlit(" #waiting");
    reveal_strlit(" #project/");
    let (wt, pj) = tag_parts(core, waiting, project);
    assert(with_project(with_waiting_tag(core, waiting), project) =~= core + wt + pj);
}

/// The text, the priority and the dates of the line that capture writes.
pub open spec fn capture_core(
    text: Seq<char>,
    due: Option<Date>,
    scheduled: Option<Date>,
    start: Option<Date>,
    priority: Option<Priority>,
    person: Option<Seq<char>>,
    waiting: bool,
) -> Seq<char> {
    waiting_lead(text, person, waiting) + priority_part(priority) + date_part('🛫', start)
        + date_part('⏳', scheduled) + date_part('📅', due)
}

/// The text of the line that capture writes, after `- [ ] `.
pub open spec fn capture_text(
    text: Seq<char>,
    due: Option<Date>,
    scheduled: Option<Date>,
    start: Option<Date>,
    priority: Option<Priority>,
    person: Option<Seq<char>>,
    project: Option<Seq<char>>,
    waiting: bool,
    id: Seq<char>,
) -> Seq<char> {
    let core = capture_core(text, due, scheduled, start, priority, person, waiting);
    core + tag_suffix(core, waiting, project) + (seq![' ', '🆔', ' '] + id)
}

/// The line that capture writes is `- [ ] ` and capture's text, when the
/// text before the ID part holds no `🆔`.
proof fn lemma_capture_line_shape(
    text: Seq<char>,
    due: Option<Date>,
    scheduled: Option<Date>,
    start: Option<Date>,
    priority: Option<Priority>,
    person: Option<Seq<char>>,
    project: Option<Seq<char>>,
    waiting: bool,
    id: Seq<char>,
)
    requires
        ({
            let core = capture_core(text, due, scheduled, start, priority, person, waiting);
            !(core + tag_suffix(core, waiting, project)).contains('🆔')
        }),
    ensures
        task_line_spec(text, due, scheduled, start, priority, person, project, waiting, Some(id))
            == task_prefix(seq![], '-', ' ') + capture_text(
            text,
            due,
            scheduled,
            start,
            priority,
            person,
            project,
            waiting,
            id,
        ),
{
    reveal_strlit("- [ ] ");
    let core = capture_core(text, due, scheduled, start, priority, person, waiting);
    lemma_tags_free(core, waiting, project);
    let y = core + tag_suffix(core, waiting, project);
    assert(with_id(y, Some(id)) == y + seq![' ', '🆔', ' '] + id);
    assert(task_line_spec(text, due, scheduled, start, priority, person, project, waiting, Some(id))
        =~= task_prefix(seq![], '-', ' ') + capture_text(
        text,
        due,
        scheduled,
        start,
        priority,
        person,
        project,
        waiting,
        id,
    ));
}

/// The text put together from capture's pieces, with ` 🆔 <id>` at the
/// end: one line, whose ID and dates read back as given.
proof fn lemma_pieces_read_back(
    a: Seq<char>,
    sp: Seq<char>,
    schp: Seq<char>,
    dp: Seq<char>,
    wt: Seq<char>,
    pj: Seq<char>,
    id: Seq<char>,
    due: Option<Date>,
    scheduled: Option<Date>,
    start: Option<Date>,
)
    requires
        free_of_marks(a),
        sp == date_part('🛫', start),
        schp == date_part('⏳', scheduled),
        dp == date_part('📅', due),
        only_mark(sp, '🛫'),
        only_mark(schp, '⏳'),
        only_mark(dp, '📅'),
        free_of_marks(wt),
        free_of_marks(pj),
        free_of_marks(id),
        id.len() > 0,
        forall|i: int| 0 <= i < id.len() ==> !is_ws(#[trigger] id[i]),
        due matches Some(x) ==> x.wf() && 0 <= x.year <= 9999,
        scheduled matches Some(x) ==> x.wf() && 0 <= x.year <= 9999,
        start matches Some(x) ==> x.wf() && 0 <= x.year <= 9999,
    ensures
        ({
            let y = a + sp + schp + dp + wt + pj;
            let c = y + (seq![' ', '🆔', ' '] + id);
            &&& !y.contains('🆔')
            &&& !c.contains('\n')
            &&& crate::task::id_of(c) == Some(id)
            &&& date_after(c, '📅') == read_back(due)
            &&& date_after(c, '⏳') == read_back(scheduled)
            &&& date_after(c, '🛫') == read_back(start)
        }),
{
    let idp = seq![' ', '🆔', ' '] + id;
    let y = a + sp + schp + dp + wt + pj;
    let c = y + idp;
    lemma_pieces_lack(a, sp, schp, dp, wt, pj, '🆔');
    lemma_pieces_lack(a, sp, schp, dp, wt, pj, '\n');
    lemma_free_lacks(id, '\n');
    assert(!seq![' ', '🆔', ' '].contains('\n')) by {
        if seq![' ', '🆔', ' '].contains('\n') {
            let k = choose|k: int| 0 <= k < 3 && seq![' ', '🆔', ' '][k] == '\n';
        }
    }
    lemma_lacks_concat(seq![' ', '🆔', ' '], id, '\n');
    lemma_lacks_concat(y, idp, '\n');
    lemma_id_of_appended(y, id);
    assert(c =~= y + seq![' ', '🆔', ' '] + id);
    lemma_capture_dates(a, sp, schp, dp, wt, pj, id, due, scheduled, start);
}

/// Capture's text: one line, whose ID and dates read back as given.
proof fn lemma_capture_text(
    text: Seq<char>,
    due: Option<Date>,
    scheduled: Option<Date>,
    start: Option<Date>,
    priority: Option<Priority>,
    person: Option<Seq<char>>,
    project: Option<Seq<char>>,
    waiting: bool,
    id: Seq<char>,
)
    requires
        free_of_marks(text),
        person matches Some(p) ==> free_of_marks(p),
        free_of_marks(id),
        id.len() > 0,
        forall|i: int| 0 <= i < id.len() ==> !is_ws(#[trigger] id[i]),
        due matches Some(x) ==> x.wf() && 0 <= x.year <= 9999,
        scheduled matches Some(x) ==> x.wf() && 0 <= x.year <= 9999,
        start matches Some(x) ==> x.wf() && 0 <= x.year <= 9999,
    ensures
        ({
            let c = capture_text(text, due, scheduled, start, priority, person, project, waiting, id);
            &&& task_line_spec(text, due, scheduled, start, priority, person, project, waiting, Some(id))
                == task_prefix(seq![], '-', ' ') + c
            &&& !c.contains('\n')
            &&& crate::task::id_of(c) == Some(id)
            &&& date_after(c, '📅') == read_back(due)
            &&& date_after(c, '⏳') == read_back(scheduled)
            &&& date_after(c, '🛫') == read_back(start)
        }),
{
    let a = waiting_lead(text, person, waiting) + priority_part(priority);
    lemma_lead_free(text, person, waiting, priority);
    let sp = date_part('🛫', start);
    let schp = date_part('⏳', scheduled);
    let dp = date_part('📅', due);
    lemma_date_part_free('🛫', start);
    lemma_date_part_free('⏳', scheduled);
    lemma_date_part_free('📅', due);
    let core = capture_core(text, due, scheduled, start, priority, person, waiting);
    assert(core == a + sp + schp + dp);
    let wt = tag_parts(core, waiting, project).0;
    let pj = tag_parts(core, waiting, project).1;
    lemma_tag_parts(core, waiting, project);
    let idp = seq![' ', '🆔', ' '] + id;
    let y = core + tag_suffix(core, waiting, project);
    let c = y + idp;
    assert(c == capture_text(text, due, scheduled, start, priority, person, project, waiting, id));
    assert(y =~= a + sp + schp + dp + wt + pj);
    lemma_pieces_read_back(a, sp, schp, dp, wt, pj, id, due, scheduled, start);
    lemma_capture_line_shape(text, due, scheduled, start, priority, person, project, waiting, id);
}

/// The line that capture writes for a task with an ID is an open `- [ ]`
/// task line whose text is capture's text: it carries that ID, and its
/// start, scheduled and due dates are what chrono reads back from the
/// given dates' `YYYY-MM-DD` text (which is the dates themselves,
/// `parse_ymd`). This holds when the text, the person and the ID hold no
/// line feed and none of `🆔`, `📅`, `⏳`, `🛫`, the ID is a run of
/// non-whitespace characters, and the dates have four-digit years.
pub proof fn law_capture_line_reads_back(
    text: Seq<char>,
    due: Option<Date>,
    scheduled: Option<Date>,
    start: Option<Date>,
    priority: Option<Priority>,
    person: Option<Seq<char>>,
    project: Option<Seq<char>>,
    waiting: bool,
    id: Seq<char>,
)
    requires
        free_of_marks(text),
        person matches Some(p) ==> free_of_marks(p),
        free_of_marks(id),
        id.len() > 0,
        forall|i: int| 0 <= i < id.len() ==> !is_ws(#[trigger] id[i]),
        due matches Some(x) ==> x.wf() && 0 <= x.year <= 9999,
        scheduled matches Some(x) ==> x.wf() && 0 <= x.year <= 9999,
        start matches Some(x) ==> x.wf() && 0 <= x.year <= 9999,
    ensures
        ({
            let line = task_line_spec(
                text,
                due,
                scheduled,
                start,
                priority,
                person,
                project,
                waiting,
                Some(id),
            );
            let t = parse_task_spec(seq![], 1, line);
            &&& t is Some
            &&& t.unwrap().is_open()
            &&& t.unwrap().status == ' '
            &&& t.unwrap().marker == '-'
            &&& t.unwrap().indent.len() == 0
            &&& t.unwrap().text == capture_text(
                text,
                due,
                scheduled,
                start,
                priority,
                person,
                project,
                waiting,
                id,
            )
            &&& t.unwrap().id == Some(id)
            &&& t.unwrap().due == read_back(due)
            &&& t.unwrap().scheduled == read_back(scheduled)
            &&& t.unwrap().start == read_back(start)
        }),
{
    lemma_capture_text(text, due, scheduled, start, priority, person, project, waiting, id);
    let c = capture_text(text, due, scheduled, start, priority, person, project, waiting, id);
    lemma_parse_built(seq![], '-', ' ', c);
}

/// Text whose only marks are `marker`.
pub open spec fn only_mark(s: Seq<char>, marker: char) -> bool {
    forall|i: int| 0 <= i < s.len() ==> #[trigger] s[i] == marker || !is_capture_mark(s[i])
}

/// The text before the ID part holds no `🆔` and no line feed.
proof fn lemma_pieces_lack(
    a: Seq<char>,
    sp: Seq<char>,
    schp: Seq<char>,
    dp: Seq<char>,
    wt: Seq<char>,
    pj: Seq<char>,
    c: char,
)
    requires
        free_of_marks(a),
        only_mark(sp, '🛫'),
        only_mark(schp, '⏳'),
        only_mark(dp, '📅'),
        free_of_marks(wt),
        free_of_marks(pj),
        c == '🆔' || c == '\n',
    ensures
        !(a + sp + schp + dp + wt + pj).contains(c),
{
    lemma_free_lacks(a, c);
    lemma_only_mark_lacks(sp, '🛫', c);
    lemma_only_mark_lacks(schp, '⏳', c);
    lemma_only_mark_lacks(dp, '📅', c);
    lemma_free_lacks(wt, c);
    lemma_free_lacks(pj, c);
    lemma_lacks_concat(a, sp, c);
    lemma_lacks_concat(a + sp, schp, c);
    lemma_lacks_concat(a + sp + schp, dp, c);
    lemma_lacks_concat(a + sp + schp + dp, wt, c);
    lemma_lacks_concat(a + sp + schp + dp + wt, pj, c);
}

/// The three dates of capture's text read back as given.
proof fn lemma_capture_dates(
    a: Seq<char>,
    sp: Seq<char>,
    schp: Seq<char>,
    dp: Seq<char>,
    wt: Seq<char>,
    pj: Seq<char>,
    id: Seq<char>,
    due: Option<Date>,
    scheduled: Option<Date>,
    start: Option<Date>,
)
    requires
        free_of_marks(a),
        sp == date_part('🛫', start),
        schp == date_part('⏳', scheduled),
        dp == date_part('📅', due),
        only_mark(sp, '🛫'),
        only_mark(schp, '⏳'),
        only_mark(dp, '📅'),
        free_of_marks(wt),
        free_of_marks(pj),
        free_of_marks(id),
        due matches Some(x) ==> x.wf() && 0 <= x.year <= 9999,
        scheduled matches Some(x) ==> x.wf() && 0 <= x.year <= 9999,
        start matches Some(x) ==> x.wf() && 0 <= x.year <= 9999,
    ensures
        ({
            let c = a + sp + schp + dp + wt + pj + (seq![' ', '🆔', ' '] + id);
            &&& date_after(c, '📅') == read_back(due)
            &&& date_after(c, '⏳') == read_back(scheduled)
            &&& date_after(c, '🛫') == read_back(start)
        }),
{
    let idp = seq![' ', '🆔', ' '] + id;
    let c = a + sp + schp + dp + wt + pj + idp;
    let post_due = wt + pj + idp;
    assert(c =~= (a + sp + schp) + dp + post_due);
    let post_sch = dp + post_due;
    assert(c =~= (a + sp) + schp + post_sch);
    let post_start = schp + dp + post_due;
    assert(c =~= a + sp + post_start);
    lemma_free_lacks(a, '📅');
    lemma_free_lacks(a, '⏳');
    lemma_free_lacks(a, '🛫');
    lemma_only_mark_lacks(sp, '🛫', '📅');
    lemma_only_mark_lacks(sp, '🛫', '⏳');
    lemma_only_mark_lacks(schp, '⏳', '📅');
    lemma_only_mark_lacks(schp, '⏳', '🛫');
    lemma_only_mark_lacks(dp, '📅', '⏳');
    lemma_only_mark_lacks(dp, '📅', '🛫');
    lemma_tail_lacks(wt, pj, id, '📅');
    lemma_tail_lacks(wt, pj, id, '⏳');
    lemma_tail_lacks(wt, pj, id, '🛫');
    lemma_lacks_concat(a, sp, '📅');
    lemma_lacks_concat(a + sp, schp, '📅');
    lemma_lacks_concat(a, sp, '⏳');
    lemma_lacks_concat(dp, post_due, '⏳');
    lemma_lacks_concat(dp, post_due, '🛫');
    lemma_lacks_concat(schp, dp + post_due, '🛫');
    assert(schp + dp + post_due =~= schp + (dp + post_due));
    lemma_read_date(a + sp + schp, '📅', due, post_due);
    lemma_read_date(a + sp, '⏳', scheduled, post_sch);
    lemma_read_date(a, '🛫', start, post_start);
}

pub proof fn lemma_lacks_concat(a: Seq<char>, b: Seq<char>, c: char)
    requires
        !a.contains(c),
        !b.contains(c),
    ensures
        !(a + b).contains(c),
{
    if (a + b).contains(c) {
        let i = choose|i: int| 0 <= i < (a + b).len() && (a + b)[i] == c;
        if i < a.len() {
            assert(a[i] == c);
        } else {
            assert(b[i - a.len()] == c);
        }
    }
}

/// What follows the date parts holds no date marker.
proof fn lemma_tail_lacks(wt: Seq<char>, pj: Seq<char>, id: Seq<char>, c: char)
    requires
        free_of_marks(wt),
        free_of_marks(pj),
        free_of_marks(id),
        is_capture_mark(c),
        c != '🆔',
    ensures
        !(wt + pj + (seq![' ', '🆔', ' '] + id)).contains(c),
{
    lemma_free_concat(wt, pj);
    lemma_free_lacks(wt + pj, c);
    lemma_free_lacks(id, c);
    let head = seq![' ', '🆔', ' '];
    assert(!head.contains(c)) by {
        if head.contains(c) {
            let i = choose|i: int| 0 <= i < 3 && head[i] == c;
        }
    }
    lemma_lacks_concat(head, id, c);
    lemma_lacks_concat(wt + pj, head + id, c);
}


} // verus!
