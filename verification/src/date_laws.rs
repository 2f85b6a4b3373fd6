//! Laws of setting a task's scheduled or due date: the line then reads back
//! with exactly that date, whatever date it held before.
use vstd::prelude::*;
use crate::date::{chrono_parse_date, is_digit, lemma_date_text, Date};
use crate::task::{
    date_after, date_piece, line_with_due_spec, line_with_scheduled_spec, parse_task_spec,
    replace_or_append_date_spec,
};
use crate::task_laws::{lemma_date_after_marker, lemma_parse_built, lemma_parsed_shape, task_prefix};
use crate::text::{
    byte_prefix, find_char, is_ws, lead_ws, lemma_byte_prefix_ascii, lemma_byte_prefix_bound,
    lemma_find_char, lemma_find_char_concat, lemma_lead_ws_bound, lemma_lead_ws_concat, trim_start,
};

verus! {

/// A marker, then whitespace, then a date's `YYYY-MM-DD` text: the piece
/// read after the first marker is that text.
proof fn lemma_piece_after(pre: Seq<char>, marker: char, w: Seq<char>, d: Date, post: Seq<char>)
    requires
        !pre.contains(marker),
        forall|i: int| 0 <= i < w.len() ==> is_ws(#[trigger] w[i]),
        d.wf(),
        0 <= d.year <= 9999,
    ensures
        date_piece(pre + seq![marker] + w + d.text() + post, marker) == Some(d.text()),
{
    reveal(date_piece);
    let dt = d.text();
    lemma_date_text(d);
    let tail = seq![marker] + w + dt + post;
    let text = pre + seq![marker] + w + dt + post;
    assert(text =~= pre + tail);
    lemma_find_char_concat(pre, tail, marker);
    assert(find_char(tail, marker) == Some(0int)) by {
        crate::text::lemma_find_char_at(tail, marker, 0);
    }
    let p = pre.len() as int;
    let after = text.skip(p + 1);
    assert(after =~= w + (dt + post));
    assert(is_digit(dt[0]));
    assert((dt + post)[0] == dt[0]);
    lemma_lead_ws_concat(w, dt + post);
    let rest = trim_start(after);
    assert(rest =~= dt + post);
    assert forall|i: int| 0 <= i < 10 implies (#[trigger] rest[i] as u32) < 0x80 by {
        assert(rest[i] == dt[i]);
        if i != 4 && i != 7 {
            assert(is_digit(dt[i]));
        }
    }
    lemma_byte_prefix_ascii(rest, 10);
    assert(rest.take(10) =~= dt);
}

/// A date's text holds no line feed.
proof fn lemma_date_text_one_line(d: Date)
    requires
        d.wf(),
        0 <= d.year <= 9999,
    ensures
        !d.text().contains('\n'),
{
    lemma_date_text(d);
    let dt = d.text();
    if dt.contains('\n') {
        let i = choose|i: int| 0 <= i < dt.len() && dt[i] == '\n';
        if i != 4 && i != 7 {
            assert(is_digit(dt[i]));
        }
    }
}

proof fn lemma_no_newline3(a: Seq<char>, b: Seq<char>, c: Seq<char>)
    requires
        !a.contains('\n'),
        !b.contains('\n'),
        !c.contains('\n'),
    ensures
        !(a + b + c).contains('\n'),
{
    let s = a + b + c;
    if s.contains('\n') {
        let i = choose|i: int| 0 <= i < s.len() && s[i] == '\n';
        if i < a.len() {
            assert(a[i] == '\n');
        } else if i < a.len() + b.len() {
            assert(b[i - a.len()] == '\n');
        } else {
            assert(c[i - a.len() - b.len()] == '\n');
        }
    }
}

proof fn lemma_piece_lacks(s: Seq<char>, i: int, j: int)
    requires
        0 <= i <= j <= s.len(),
        !s.contains('\n'),
    ensures
        !s.subrange(i, j).contains('\n'),
{
    if s.subrange(i, j).contains('\n') {
        let k = choose|k: int| 0 <= k < j - i && s.subrange(i, j)[k] == '\n';
        assert(s[i + k] == '\n');
    }
}

/// Setting the date after `marker` on a line made of a prefix without the
/// marker and a text without a line feed: the line becomes the prefix and a
/// new text without a line feed, whose date read after the first `marker`
/// is the new date's text.
proof fn lemma_set_date_text(pf: Seq<char>, text: Seq<char>, marker: char, date: Date) -> (text2:
    Seq<char>)
    requires
        !pf.contains(marker),
        !text.contains('\n'),
        marker != '\n',
        marker != ' ',
        date.wf(),
        0 <= date.year <= 9999,
        !text.contains(marker) || date_after(text, marker) is Some,
    ensures
        replace_or_append_date_spec(pf + text, marker, date) == pf + text2,
        !text2.contains('\n'),
        date_piece(text2, marker) == Some(date.text()),
{
    let line = pf + text;
    let dt = date.text();
    lemma_date_text_one_line(date);
    lemma_find_char_concat(pf, text, marker);
    lemma_find_char(text, marker);
    match find_char(text, marker) {
        None => {
            let text2 = text + seq![' ', marker, ' '] + dt;
            assert(!seq![' ', marker, ' '].contains('\n')) by {
                if seq![' ', marker, ' '].contains('\n') {
                    let k = choose|k: int| 0 <= k < 3 && seq![' ', marker, ' '][k] == '\n';
                }
            }
            lemma_no_newline3(text, seq![' ', marker, ' '], dt);
            assert(replace_or_append_date_spec(line, marker, date) =~= pf + text2);
            assert(text2 =~= text + seq![' ', marker, ' '] + dt + Seq::<char>::empty());
            lemma_date_after_marker(text, marker, date, Seq::<char>::empty());
            text2
        },
        Some(q) => {
            reveal(date_piece);
            let after = text.skip(q + 1);
            lemma_lead_ws_bound(after);
            let l = lead_ws(after) as int;
            let a2 = q + 1 + l;
            let rest = trim_start(after);
            assert(rest =~= text.skip(a2));
            let k = byte_prefix(rest, 10).unwrap() as int;
            lemma_byte_prefix_bound(rest, 10);
            let p = pf.len() + q;
            assert(find_char(line, marker) == Some(p));
            assert(line.skip(p + 1) =~= after);
            let a = p + 1 + lead_ws(line.skip(p + 1));
            assert(a == pf.len() + a2);
            assert(line.skip(a) =~= rest);
            assert(line.subrange(a, a + k) =~= rest.take(k));
            let text2 = text.take(a2) + dt + text.skip(a2 + k);
            assert(replace_or_append_date_spec(line, marker, date) =~= pf + text2);
            let w = text.subrange(q + 1, a2);
            assert forall|i: int| 0 <= i < w.len() implies is_ws(#[trigger] w[i]) by {
                assert(w[i] == after[i]);
            }
            assert(!text.take(q).contains(marker)) by {
                if text.take(q).contains(marker) {
                    let i = choose|i: int| 0 <= i < q && text.take(q)[i] == marker;
                    assert(text[i] == marker);
                }
            }
            assert(text2 =~= text.take(q) + seq![marker] + w + dt + text.skip(a2 + k));
            lemma_piece_after(text.take(q), marker, w, date, text.skip(a2 + k));
            lemma_piece_lacks(text, 0, a2);
            lemma_piece_lacks(text, a2 + k, text.len() as int);
            assert(text.take(a2) =~= text.subrange(0, a2));
            assert(text.skip(a2 + k) =~= text.subrange(a2 + k, text.len() as int));
            lemma_no_newline3(text.take(a2), dt, text.skip(a2 + k));
            text2
        },
    }
}

/// Setting the date after `marker` on a task line: the line stays a task
/// line with the same indent, list marker and status, and the date read
/// after the first `marker` of its text is the new date's text.
proof fn lemma_set_date(line: Seq<char>, marker: char, date: Date)
    requires
        parse_task_spec(seq![], 1, line) is Some,
        parse_task_spec(seq![], 1, line).unwrap().status != marker,
        marker == '⏳' || marker == '📅',
        date.wf(),
        0 <= date.year <= 9999,
        !parse_task_spec(seq![], 1, line).unwrap().text.contains(marker) || date_after(
            parse_task_spec(seq![], 1, line).unwrap().text,
            marker,
        ) is Some,
    ensures
        ({
            let t = parse_task_spec(seq![], 1, line).unwrap();
            let r = replace_or_append_date_spec(line, marker, date);
            &&& parse_task_spec(seq![], 1, r) is Some
            &&& parse_task_spec(seq![], 1, r).unwrap().indent == t.indent
            &&& parse_task_spec(seq![], 1, r).unwrap().marker == t.marker
            &&& parse_task_spec(seq![], 1, r).unwrap().status == t.status
            &&& date_piece(parse_task_spec(seq![], 1, r).unwrap().text, marker) == Some(
                date.text(),
            )
        }),
{
    let t = parse_task_spec(seq![], 1, line).unwrap();
    lemma_parsed_shape(seq![], 1, line);
    let pf = task_prefix(t.indent, t.marker, t.status);
    lemma_prefix_lacks(t.indent, t.marker, t.status, marker);
    let text2 = lemma_set_date_text(pf, t.text, marker, date);
    assert(replace_or_append_date_spec(line, marker, date) == pf + text2);
    lemma_parse_built(t.indent, t.marker, t.status, text2);
}

/// A task line's prefix holds no date marker that is neither whitespace, a
/// list marker nor its status.
proof fn lemma_prefix_lacks(indent: Seq<char>, lm: char, status: char, marker: char)
    requires
        forall|i: int| 0 <= i < indent.len() ==> is_ws(#[trigger] indent[i]),
        status != marker,
        marker == '⏳' || marker == '📅',
        lm == '-' || lm == '*' || lm == '+',
    ensures
        !task_prefix(indent, lm, status).contains(marker),
{
    let pf = task_prefix(indent, lm, status);
    if pf.contains(marker) {
        let i = choose|i: int| 0 <= i < pf.len() && pf[i] == marker;
        if i < indent.len() {
            assert(is_ws(indent[i]));
        }
    }
}

/// Scheduling a task line for a date (`line_with_scheduled`) moves it to
/// that date, later or earlier than before: the new line is a task line
/// whose scheduled date is what chrono reads from the date's text (the
/// date itself, by `parse_ymd`'s read-back), its date piece being that
/// text. This holds when the task has no scheduled marker yet or a date
/// after its first one, and its status is not `⏳`.
pub proof fn law_line_with_scheduled_sets_date(line: Seq<char>, date: Date)
    requires
        parse_task_spec(seq![], 1, line) is Some,
        parse_task_spec(seq![], 1, line).unwrap().status != '⏳',
        date.wf(),
        0 <= date.year <= 9999,
        !parse_task_spec(seq![], 1, line).unwrap().text.contains('⏳') || parse_task_spec(
            seq![],
            1,
            line,
        ).unwrap().scheduled is Some,
    ensures
        ({
            let r = line_with_scheduled_spec(line, date);
            &&& r is Some
            &&& parse_task_spec(seq![], 1, r.unwrap()) is Some
            &&& date_piece(parse_task_spec(seq![], 1, r.unwrap()).unwrap().text, '⏳') == Some(
                date.text(),
            )
            &&& parse_task_spec(seq![], 1, r.unwrap()).unwrap().scheduled == chrono_parse_date(
                date.text(),
            )
        }),
{
    lemma_set_date(line, '⏳', date);
}

/// Deferring a task line to a date (`line_with_due`) moves its due date to
/// that date, later or earlier than before: the new line is a task line
/// whose due date is what chrono reads from the date's text, its date
/// piece being that text. This holds when the task has no due marker yet
/// or a date after its first one, and its status is not `📅`.
pub proof fn law_line_with_due_sets_date(line: Seq<char>, date: Date)
    requires
        parse_task_spec(seq![], 1, line) is Some,
        parse_task_spec(seq![], 1, line).unwrap().status != '📅',
        date.wf(),
        0 <= date.year <= 9999,
        !parse_task_spec(seq![], 1, line).unwrap().text.contains('📅') || parse_task_spec(
            seq![],
            1,
            line,
        ).unwrap().due is Some,
    ensures
        ({
            let r = line_with_due_spec(line, date);
            &&& r is Some
            &&& parse_task_spec(seq![], 1, r.unwrap()) is Some
            &&& date_piece(parse_task_spec(seq![], 1, r.unwrap()).unwrap().text, '📅') == Some(
                date.text(),
            )
            &&& parse_task_spec(seq![], 1, r.unwrap()).unwrap().due == chrono_parse_date(
                date.text(),
            )
        }),
{
    lemma_set_date(line, '📅', date);
}

} // verus!
