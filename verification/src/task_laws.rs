//! Laws of single-line task edits: completion marks a task done, and an
//! added ID is the ID the line then carries.
use vstd::prelude::*;
use crate::date::{chrono_parse_date, is_digit, lemma_date_text, Date};
use crate::task::{
    complete_line_spec, id_at, id_from, id_of, is_list_marker, line_with_id_spec, parse_task_spec,
    task_head, date_after, date_piece,
};
use crate::text::{
    find_char, is_ws, lead_nonws, lemma_byte_prefix_ascii, lemma_find_char,
    lemma_find_char_concat, lemma_lead_nonws_run, lemma_lead_ws_bound, lemma_lead_ws_concat,
    trim_start,
};

verus! {

/// The prefix of a task line up to its text.
pub open spec fn task_prefix(indent: Seq<char>, marker: char, status: char) -> Seq<char> {
    indent + seq![marker, ' ', '[', status, ']', ' ']
}

/// A line built from an indent, a list marker, a status and a text is a
/// task line with exactly those parts.
pub proof fn lemma_task_head_of(indent: Seq<char>, marker: char, status: char, text: Seq<char>)
    requires
        forall|i: int| 0 <= i < indent.len() ==> is_ws(#[trigger] indent[i]),
        is_list_marker(marker),
        status != '\n',
        !text.contains('\n'),
    ensures
        ({
            let line = task_prefix(indent, marker, status) + text;
            &&& task_head(line) == Some(indent.len() as int)
            &&& line.take(indent.len() as int) == indent
            &&& line.skip(indent.len() as int + 6) == text
            &&& line[indent.len() as int] == marker
            &&& line[indent.len() as int + 3] == status
        }),
{
    let k = indent.len() as int;
    let rest = seq![marker, ' ', '[', status, ']', ' '] + text;
    let line = task_prefix(indent, marker, status) + text;
    assert(line =~= indent + rest);
    lemma_lead_ws_concat(indent, rest);
    assert(line.take(k) =~= indent);
    assert(line.skip(k + 6) =~= text);
    assert(line[k] == marker);
    assert(line[k + 1] == ' ');
    assert(line[k + 2] == '[');
    assert(line[k + 3] == status);
    assert(line[k + 4] == ']');
    assert(line[k + 5] == ' ');
}

/// A parsed task line is its indent, marker, status and text put together.
pub proof fn lemma_parsed_shape(path: Seq<char>, n: usize, line: Seq<char>)
    requires
        parse_task_spec(path, n, line) is Some,
    ensures
        ({
            let t = parse_task_spec(path, n, line).unwrap();
            &&& line == task_prefix(t.indent, t.marker, t.status) + t.text
            &&& forall|i: int| 0 <= i < t.indent.len() ==> is_ws(#[trigger] t.indent[i])
            &&& is_list_marker(t.marker)
            &&& t.status != '\n'
            &&& !t.text.contains('\n')
            &&& t.raw == line
        }),
{
    let t = parse_task_spec(path, n, line).unwrap();
    let k = task_head(line).unwrap();
    lemma_lead_ws_bound(line);
    assert forall|i: int| 0 <= i < t.indent.len() implies is_ws(#[trigger] t.indent[i]) by {
        assert(t.indent[i] == line[i]);
    }
    assert(line =~= task_prefix(t.indent, t.marker, t.status) + t.text);
}

/// The date after the first `marker` of a text, when the marker is
/// followed by a space and a date's `YYYY-MM-DD` text (and then anything):
/// what chrono parses from that date text.
pub proof fn lemma_date_after_marker(pre: Seq<char>, marker: char, d: Date, post: Seq<char>)
    requires
        !pre.contains(marker),
        marker != ' ',
        d.wf(),
        0 <= d.year <= 9999,
    ensures
        date_piece(pre + seq![' ', marker, ' '] + d.text() + post, marker) == Some(d.text()),
        date_after(pre + seq![' ', marker, ' '] + d.text() + post, marker) == chrono_parse_date(
            d.text(),
        ),
{
    reveal(date_piece);
    let dt = d.text();
    lemma_date_text(d);
    let tail = seq![' ', marker, ' '] + dt + post;
    let text = pre + seq![' ', marker, ' '] + dt + post;
    assert(text =~= pre + tail);
    lemma_find_char_concat(pre, tail, marker);
    lemma_find_char(tail, marker);
    assert(tail[1] == marker);
    assert(tail[0] != marker);
    assert(find_char(tail, marker) == Some(1int)) by {
        crate::text::lemma_find_char_at(tail, marker, 1);
    }
    let p = pre.len() as int + 1;
    assert(find_char(text, marker) == Some(p as int));
    let after = text.skip(p + 1);
    assert(after =~= seq![' '] + (dt + post));
    assert(is_digit(dt[0]));
    assert((dt + post)[0] == dt[0]);
    lemma_lead_ws_concat(seq![' '], dt + post);
    let rest = trim_start(after);
    assert(rest =~= dt + post);
    assert forall|i: int| 0 <= i < 10 implies (#[trigger] rest[i] as u32) < 0x80 by {
        assert(rest[i] == dt[i]);
        if i != 4 && i != 7 {
            assert(is_digit(dt[i]));
        }
    }
    lemma_byte_prefix_ascii(rest, 10);
    assert(rest.take(10) =~= dt);
}

/// A task line put together from its parts parses back to those parts.
pub proof fn lemma_parse_built(indent: Seq<char>, marker: char, status: char, text: Seq<char>)
    requires
        forall|i: int| 0 <= i < indent.len() ==> is_ws(#[trigger] indent[i]),
        is_list_marker(marker),
        status != '\n',
        !text.contains('\n'),
    ensures
        ({
            let t = parse_task_spec(seq![], 1, task_prefix(indent, marker, status) + text);
            &&& t is Some
            &&& t.unwrap().indent == indent
            &&& t.unwrap().marker == marker
            &&& t.unwrap().status == status
            &&& t.unwrap().text == text
            &&& t.unwrap().done == date_after(text, '✅')
            &&& t.unwrap().due == date_after(text, '📅')
            &&& t.unwrap().scheduled == date_after(text, '⏳')
            &&& t.unwrap().start == date_after(text, '🛫')
            &&& t.unwrap().id == id_of(text)
        }),
{
    lemma_task_head_of(indent, marker, status, text);
}

proof fn lemma_no_newline_concat(a: Seq<char>, b: Seq<char>)
    requires
        !a.contains('\n'),
        !b.contains('\n'),
    ensures
        !(a + b).contains('\n'),
{
    if (a + b).contains('\n') {
        let i = choose|i: int| 0 <= i < (a + b).len() && (a + b)[i] == '\n';
        if i < a.len() {
            assert(a[i] == '\n');
        } else {
            assert(b[i - a.len()] == '\n');
        }
    }
}

/// The `✅ <date>` tail that completion appends holds no line feed.
proof fn lemma_done_tail(d: Date)
    requires
        d.wf(),
        0 <= d.year <= 9999,
    ensures
        !(seq![' ', '✅', ' '] + d.text()).contains('\n'),
{
    lemma_date_text(d);
    let dt = d.text();
    assert(!dt.contains('\n')) by {
        if dt.contains('\n') {
            let i = choose|i: int| 0 <= i < dt.len() && dt[i] == '\n';
            if i != 4 && i != 7 {
                assert(is_digit(dt[i]));
            }
        }
    }
    assert(!seq![' ', '✅', ' '].contains('\n')) by {
        if seq![' ', '✅', ' '].contains('\n') {
            let i = choose|i: int| 0 <= i < 3 && seq![' ', '✅', ' '][i] == '\n';
        }
    }
    lemma_no_newline_concat(seq![' ', '✅', ' '], dt);
}

/// Completing a task line marks it done and keeps its indent and marker.
/// A task without a done date (and no `✅` in its text) gets the done date
/// that chrono reads from today's `YYYY-MM-DD` text, which is today
/// (`parse_ymd`); a task that has one keeps its text and done date.
pub proof fn law_complete_marks_done(line: Seq<char>, today: Date)
    requires
        parse_task_spec(seq![], 1, line) is Some,
        today.wf(),
        0 <= today.year <= 9999,
    ensures
        ({
            let t = parse_task_spec(seq![], 1, line).unwrap();
            &&& complete_line_spec(line, today) is Some
            &&& parse_task_spec(seq![], 1, complete_line_spec(line, today).unwrap()) is Some
            &&& ({
                let t2 = parse_task_spec(seq![], 1, complete_line_spec(line, today).unwrap()).unwrap();
                &&& t2.is_done()
                &&& t2.status == 'x'
                &&& t2.indent == t.indent
                &&& t2.marker == t.marker
                &&& (t.done is None && !t.text.contains('✅') ==> t2.done == chrono_parse_date(
                    today.text(),
                ))
                &&& (t.done is Some ==> t2.text == t.text && t2.done == t.done)
            })
        }),
{
    reveal_strlit(" [x] ");
    let t = parse_task_spec(seq![], 1, line).unwrap();
    lemma_parsed_shape(seq![], 1, line);
    let tail = if t.done is None {
        seq![' ', '✅', ' '] + today.text()
    } else {
        seq![]
    };
    if t.done is None {
        lemma_done_tail(today);
    } else {
        assert(!tail.contains('\n'));
    }
    lemma_no_newline_concat(t.text, tail);
    let text2 = t.text + tail;
    let l2 = complete_line_spec(line, today).unwrap();
    assert(l2 =~= task_prefix(t.indent, t.marker, 'x') + text2);
    lemma_parse_built(t.indent, t.marker, 'x', text2);
    if t.done is None && !t.text.contains('✅') {
        lemma_date_after_marker(t.text, '✅', today, seq![]);
        assert(text2 =~= t.text + seq![' ', '✅', ' '] + today.text() + Seq::<char>::empty());
    }
    if t.done is Some {
        assert(text2 =~= t.text);
    }
}

/// Completing is idempotent on lines whose done date reads back: a
/// completed line is left as it is by a second completion.
pub proof fn law_complete_idempotent(line: Seq<char>, today: Date)
    requires
        parse_task_spec(seq![], 1, line) is Some,
        today.wf(),
        0 <= today.year <= 9999,
        chrono_parse_date(today.text()) is Some,
        parse_task_spec(seq![], 1, line).unwrap().done is Some || !parse_task_spec(
            seq![],
            1,
            line,
        ).unwrap().text.contains('✅'),
    ensures
        complete_line_spec(complete_line_spec(line, today).unwrap(), today)
            == complete_line_spec(line, today),
{
    reveal_strlit(" [x] ");
    law_complete_marks_done(line, today);
    let l2 = complete_line_spec(line, today).unwrap();
    let t2 = parse_task_spec(seq![], 1, l2).unwrap();
    lemma_parsed_shape(seq![], 1, l2);
    assert(t2.done is Some);
    assert(complete_line_spec(l2, today).unwrap() =~= l2);
}

proof fn lemma_id_from_skip(text: Seq<char>, i: int, j: int)
    requires
        0 <= i <= j <= text.len(),
        forall|k: int| i <= k < j ==> (#[trigger] id_at(text, k)) is None,
    ensures
        id_from(text, i) == id_from(text, j) || j == text.len() && id_from(text, i) is None,
    decreases j - i,
{
    if i < j {
        lemma_id_from_skip(text, i + 1, j);
    }
}

/// Right after ` 🆔 ` stands the appended ID, when it is a non-empty run
/// of non-whitespace characters.
pub proof fn lemma_id_at_appended(x: Seq<char>, id: Seq<char>)
    requires
        id.len() > 0,
        forall|i: int| 0 <= i < id.len() ==> !is_ws(#[trigger] id[i]),
    ensures
        id_at(x + seq![' ', '🆔', ' '] + id, x.len() as int + 1) == Some(id),
{
    let text2 = x + seq![' ', '🆔', ' '] + id;
    let n = x.len() as int;
    let after = text2.skip(n + 2);
    assert(after =~= seq![' '] + id);
    lemma_lead_ws_concat(seq![' '], id);
    let s = n + 2 + 1;
    assert(text2.skip(s) =~= id);
    assert forall|k: int| s <= k < text2.len() implies !is_ws(#[trigger] text2[k]) by {
        assert(text2[k] == id[k - s]);
    }
    lemma_lead_nonws_run(text2, s, text2.len() as int);
    assert(text2.subrange(s, s + lead_nonws(text2.skip(s))) =~= id);
}

/// Where no ID is found from `i` on, no `🆔` from `i` on is followed by one.
pub proof fn lemma_id_from_none(text: Seq<char>, i: int)
    requires
        0 <= i,
        id_from(text, i) is None,
    ensures
        forall|k: int| i <= k ==> (#[trigger] id_at(text, k)) is None,
    decreases text.len() - i,
{
    if i < text.len() {
        lemma_id_from_none(text, i + 1);
    }
}

/// A text with ` 🆔 <id>` appended has an ID.
pub proof fn lemma_id_of_appended_some(x: Seq<char>, id: Seq<char>)
    requires
        id.len() > 0,
        forall|i: int| 0 <= i < id.len() ==> !is_ws(#[trigger] id[i]),
    ensures
        id_of(x + seq![' ', '🆔', ' '] + id) is Some,
{
    let text2 = x + seq![' ', '🆔', ' '] + id;
    lemma_id_at_appended(x, id);
    if id_of(text2) is None {
        lemma_id_from_none(text2, 0);
        assert(id_at(text2, x.len() as int + 1) is None);
    }
}

/// The ID of a text that has no `🆔` of its own, with ` 🆔 <id>` appended:
/// that ID, when it is a non-empty run of non-whitespace characters.
pub proof fn lemma_id_of_appended(x: Seq<char>, id: Seq<char>)
    requires
        !x.contains('🆔'),
        id.len() > 0,
        forall|i: int| 0 <= i < id.len() ==> !is_ws(#[trigger] id[i]),
    ensures
        id_of(x + seq![' ', '🆔', ' '] + id) == Some(id),
{
    let text2 = x + seq![' ', '🆔', ' '] + id;
    let n = x.len() as int;
    assert forall|k: int| 0 <= k < n + 1 implies (#[trigger] id_at(text2, k)) is None by {
        if k < n {
            assert(text2[k] == x[k]);
            if x[k] == '🆔' {
                assert(x.contains('🆔'));
            }
        } else {
            assert(text2[k] == ' ');
        }
    }
    lemma_id_from_skip(text2, 0, n + 1);
    lemma_id_at_appended(x, id);
}

/// A task line with ` 🆔 <id>` appended is a task line with an ID, when the
/// ID is a non-empty run of non-whitespace characters.
pub proof fn lemma_line_with_id_has_id(line: Seq<char>, id: Seq<char>)
    requires
        parse_task_spec(seq![], 1, line) is Some,
        id.len() > 0,
        forall|i: int| 0 <= i < id.len() ==> !is_ws(#[trigger] id[i]),
    ensures
        parse_task_spec(seq![], 1, line + seq![' ', '🆔', ' '] + id) is Some,
        parse_task_spec(seq![], 1, line + seq![' ', '🆔', ' '] + id).unwrap().id is Some,
{
    let t = parse_task_spec(seq![], 1, line).unwrap();
    lemma_parsed_shape(seq![], 1, line);
    let text2 = t.text + seq![' ', '🆔', ' '] + id;
    assert(!text2.contains('\n')) by {
        if text2.contains('\n') {
            let i = choose|i: int| 0 <= i < text2.len() && text2[i] == '\n';
            if i < t.text.len() {
                assert(t.text[i] == '\n');
            } else if i >= t.text.len() + 3 {
                assert(id[i - t.text.len() - 3] == '\n');
            }
        }
    }
    assert(line + seq![' ', '🆔', ' '] + id =~= task_prefix(t.indent, t.marker, t.status) + text2);
    lemma_parse_built(t.indent, t.marker, t.status, text2);
    lemma_id_of_appended_some(t.text, id);
}

/// Adding an ID to a task line that has none (and no `🆔` in its text)
/// gives a task line that carries exactly that ID, when the ID is a
/// non-empty run of non-whitespace characters; the task's status, indent,
/// marker and text start are kept.
pub proof fn law_line_with_id_sets_id(line: Seq<char>, id: Seq<char>)
    requires
        parse_task_spec(seq![], 1, line) is Some,
        parse_task_spec(seq![], 1, line).unwrap().id is None,
        !parse_task_spec(seq![], 1, line).unwrap().text.contains('🆔'),
        id.len() > 0,
        forall|i: int| 0 <= i < id.len() ==> !is_ws(#[trigger] id[i]),
    ensures
        line_with_id_spec(line, id) is Some,
        parse_task_spec(seq![], 1, line_with_id_spec(line, id).unwrap()) matches Some(t2) && {
            let t = parse_task_spec(seq![], 1, line).unwrap();
            &&& t2.id == Some(id)
            &&& t2.status == t.status
            &&& t2.indent == t.indent
            &&& t2.marker == t.marker
        },
{
    let t = parse_task_spec(seq![], 1, line).unwrap();
    lemma_parsed_shape(seq![], 1, line);
    let tail = seq![' ', '🆔', ' '] + id;
    let text2 = t.text + tail;
    assert(!text2.contains('\n')) by {
        if text2.contains('\n') {
            let i = choose|i: int| 0 <= i < text2.len() && text2[i] == '\n';
            if i < t.text.len() {
                assert(t.text[i] == '\n');
            } else if i >= t.text.len() + 3 {
                assert(id[i - t.text.len() - 3] == '\n');
            }
        }
    }
    let l2 = line_with_id_spec(line, id).unwrap();
    assert(l2 =~= task_prefix(t.indent, t.marker, t.status) + text2);
    lemma_parse_built(t.indent, t.marker, t.status, text2);
    lemma_id_of_appended(t.text, id);
    assert(text2 =~= t.text + seq![' ', '🆔', ' '] + id);
}

} // verus!
