//! Laws of line edits: editing a task line of a note changes that line and
//! no other.
use vstd::prelude::*;
use crate::date::{is_digit, lemma_date_text_chars, Date};
use crate::task::{complete_line_spec, parse_task_spec, replace_or_append_date_spec};
use crate::task_laws::lemma_parsed_shape;
use crate::text::{
    byte_prefix, find_char, join_lines, join_with, lemma_byte_prefix_bound, lemma_find_char,
    lemma_find_char_concat, lemma_lead_ws_bound, lead_ws, line_body, lines, with_final_newline,
};
use crate::vault::{apply_edit_spec, edit_text_spec, ends_in_newline, LineEdit};

verus! {

/// Text that holds no line break: neither `\n` nor `\r`.
pub open spec fn one_line(s: Seq<char>) -> bool {
    !s.contains('\n') && !s.contains('\r')
}

pub proof fn lemma_one_line_concat(a: Seq<char>, b: Seq<char>)
    requires
        one_line(a),
        one_line(b),
    ensures
        one_line(a + b),
{
    assert forall|c: char| (c == '\n' || c == '\r') implies !(a + b).contains(c) by {
        if (a + b).contains(c) {
            let i = choose|i: int| 0 <= i < (a + b).len() && (a + b)[i] == c;
            if i < a.len() {
                assert(a[i] == c);
            } else {
                assert(b[i - a.len()] == c);
            }
        }
    }
}

pub proof fn lemma_one_line_subrange(s: Seq<char>, i: int, j: int)
    requires
        one_line(s),
        0 <= i <= j <= s.len(),
    ensures
        one_line(s.subrange(i, j)),
{
    assert forall|c: char| (c == '\n' || c == '\r') implies !s.subrange(i, j).contains(c) by {
        if s.subrange(i, j).contains(c) {
            let k = choose|k: int| 0 <= k < j - i && s.subrange(i, j)[k] == c;
            assert(s[i + k] == c);
        }
    }
}

/// Characters other than line breaks make up a line.
pub proof fn lemma_one_line_chars(s: Seq<char>)
    requires
        forall|i: int| 0 <= i < s.len() ==> #[trigger] s[i] != '\n' && s[i] != '\r',
    ensures
        one_line(s),
{
}

/// A date's text holds digits, `-` and `+` only, so no line break.
pub proof fn lemma_date_one_line(d: Date)
    requires
        d.wf(),
    ensures
        one_line(d.text()),
{
    lemma_date_text_chars(d);
    assert forall|i: int| 0 <= i < d.text().len() implies #[trigger] d.text()[i] != '\n'
        && d.text()[i] != '\r' by {
        if is_digit(d.text()[i]) {
        }
    }
    lemma_one_line_chars(d.text());
}

/// An edit of a line that holds no line break gives a line that holds none.
pub proof fn lemma_edit_one_line(line: Seq<char>, edit: LineEdit)
    requires
        edit.wf(),
        one_line(line),
        apply_edit_spec(line, edit) is Some,
    ensures
        one_line(apply_edit_spec(line, edit).unwrap()),
{
    match edit {
        LineEdit::Complete(d) => {
            reveal_strlit(" [x] ");
            lemma_date_one_line(d);
            let t = parse_task_spec(seq![], 1, line).unwrap();
            lemma_parsed_shape(seq![], 1, line);
            let k = t.indent.len() as int;
            assert(t.indent =~= line.subrange(0, k));
            assert(t.text =~= line.subrange(k + 6, line.len() as int));
            lemma_one_line_subrange(line, 0, k);
            lemma_one_line_subrange(line, k + 6, line.len() as int);
            let mid = seq![t.marker] + " [x] "@;
            assert(mid =~= seq![t.marker, ' ', '[', 'x', ']', ' ']);
            lemma_one_line_chars(mid);
            lemma_one_line_concat(t.indent, mid);
            lemma_one_line_concat(t.indent + mid, t.text);
            let tail: Seq<char> = if t.done is None {
                seq![' ', '✅', ' '] + d.text()
            } else {
                seq![]
            };
            assert(one_line(tail)) by {
                if t.done is None {
                    lemma_one_line_chars(seq![' ', '✅', ' ']);
                    lemma_one_line_concat(seq![' ', '✅', ' '], d.text());
                }
            }
            lemma_one_line_concat(t.indent + mid + t.text, tail);
            assert(complete_line_spec(line, d).unwrap() =~= t.indent + mid + t.text + tail);
        },
        LineEdit::Schedule(d) => {
            lemma_replace_date_one_line(line, '⏳', d);
        },
        LineEdit::Defer(d) => {
            lemma_replace_date_one_line(line, '📅', d);
        },
    }
}

proof fn lemma_replace_date_one_line(line: Seq<char>, marker: char, d: Date)
    requires
        d.wf(),
        one_line(line),
        marker != '\n' && marker != '\r',
    ensures
        one_line(replace_or_append_date_spec(line, marker, d)),
{
    lemma_date_one_line(d);
    let fallback_tail = seq![' ', marker, ' '];
    lemma_one_line_chars(fallback_tail);
    lemma_one_line_concat(line, fallback_tail);
    lemma_one_line_concat(line + fallback_tail, d.text());
    lemma_find_char(line, marker);
    match find_char(line, marker) {
        None => {},
        Some(p) => {
            lemma_lead_ws_bound(line.skip(p + 1));
            let a = p + 1 + lead_ws(line.skip(p + 1));
            lemma_byte_prefix_bound(line.skip(a), 10);
            match byte_prefix(line.skip(a), 10) {
                None => {},
                Some(k) => {
                    lemma_one_line_subrange(line, 0, a);
                    lemma_one_line_subrange(line, a + k, line.len() as int);
                    assert(line.take(a) =~= line.subrange(0, a));
                    assert(line.skip(a + k) =~= line.subrange(a + k, line.len() as int));
                    lemma_one_line_concat(line.take(a), d.text());
                    lemma_one_line_concat(line.take(a) + d.text(), line.skip(a + k));
                },
            }
        },
    }
}

/// The text ends in a carriage return.
pub open spec fn ends_cr(s: Seq<char>) -> bool {
    s.len() > 0 && s.last() == '\r'
}

/// A text without line breaks does not end in `\r`.
pub proof fn lemma_one_line_no_cr_end(x: Seq<char>)
    requires
        one_line(x),
    ensures
        !x.contains('\n'),
        !ends_cr(x),
{
    if ends_cr(x) {
        assert(x.contains('\r'));
    }
}

/// `lines` splits off a first line that ends at a line feed.
pub proof fn lemma_lines_cons(x: Seq<char>, y: Seq<char>)
    requires
        !x.contains('\n'),
        !ends_cr(x),
    ensures
        lines(x + seq!['\n'] + y) == seq![x] + lines(y),
{
    let s = x + seq!['\n'] + y;
    assert(s =~= x + (seq!['\n'] + y));
    lemma_find_char_concat(x, seq!['\n'] + y, '\n');
    assert(find_char(seq!['\n'] + y, '\n') == Some(0int));
    assert(find_char(s, '\n') == Some(x.len() as int));
    assert(s.take(x.len() as int) =~= x);
    assert(s.skip(x.len() as int + 1) =~= y);
    assert(line_body(x, true) == x);
}

/// A non-empty last line without a line feed is one line of `lines`.
pub proof fn lemma_lines_single(x: Seq<char>)
    requires
        !x.contains('\n'),
        x.len() > 0,
    ensures
        lines(x) == seq![x],
{
    lemma_find_char(x, '\n');
}

/// `join_with` seen from the front.
pub proof fn lemma_join_front(ls: Seq<Seq<char>>, sep: char)
    requires
        ls.len() >= 2,
    ensures
        join_with(ls, sep) == ls[0] + seq![sep] + join_with(ls.drop_first(), sep),
    decreases ls.len(),
{
    let dl = ls.drop_last();
    let df = ls.drop_first();
    if ls.len() == 2 {
        assert(join_with(dl, sep) == dl[0]);
        assert(join_with(df, sep) == df[0]);
        assert(dl[0] == ls[0]);
        assert(df[0] == ls.last());
    } else {
        lemma_join_front(dl, sep);
        assert(df.drop_last() =~= dl.drop_first());
        assert(df.last() == ls.last());
        assert(dl[0] == ls[0]);
        assert(join_with(df, sep) == join_with(df.drop_last(), sep) + seq![sep] + df.last());
        assert(join_with(ls, sep) == join_with(dl, sep) + seq![sep] + ls.last());
        assert(join_with(ls, sep) =~= ls[0] + seq![sep] + join_with(df, sep));
    }
}

/// Lines without `\n`, joined with `\n` (and a final `\n`), split back
/// into the same lines, provided that no line a `\n` follows ends in `\r`
/// and that without a final `\n` the last line is not empty.
pub proof fn lemma_lines_join(ls: Seq<Seq<char>>, fin: bool)
    requires
        ls.len() >= 1,
        forall|i: int| 0 <= i < ls.len() ==> !(#[trigger] ls[i]).contains('\n'),
        forall|i: int| 0 <= i < ls.len() && (i < ls.len() - 1 || fin) ==> !ends_cr(#[trigger] ls[i]),
        !fin ==> ls.last().len() > 0,
    ensures
        lines(with_final_newline(join_lines(ls), fin)) == ls,
    decreases ls.len(),
{
    if ls.len() == 1 {
        assert(join_lines(ls) == ls[0]);
        if fin {
            lemma_lines_cons(ls[0], seq![]);
            assert(with_final_newline(join_lines(ls), fin) =~= ls[0] + seq!['\n'] + Seq::<char>::empty());
            assert(lines(Seq::<char>::empty()) =~= Seq::<Seq<char>>::empty());
            assert(seq![ls[0]] + Seq::<Seq<char>>::empty() =~= ls);
        } else {
            lemma_lines_single(ls[0]);
            assert(with_final_newline(join_lines(ls), fin) == ls[0]);
            assert(seq![ls[0]] =~= ls);
        }
    } else {
        let rest = ls.drop_first();
        lemma_join_front(ls, '\n');
        assert(rest.last() == ls.last());
        assert forall|i: int| 0 <= i < rest.len() implies !(#[trigger] rest[i]).contains('\n') && ((
        i < rest.len() - 1 || fin) ==> !ends_cr(rest[i])) by {
            assert(rest[i] == ls[i + 1]);
        }
        assert(!ends_cr(ls[0]) && !ls[0].contains('\n'));
        lemma_lines_join(rest, fin);
        let jr = with_final_newline(join_lines(rest), fin);
        assert(join_lines(ls) == ls[0] + seq!['\n'] + join_lines(rest));
        assert(with_final_newline(join_lines(ls), fin) =~= ls[0] + seq!['\n'] + jr);
        lemma_lines_cons(ls[0], jr);
        assert(seq![ls[0]] + rest =~= ls);
    }
}

/// The lines of any text hold no `\n`; a non-empty text has a line, and one
/// that does not end in `\n` has a non-empty last line.
pub proof fn lemma_lines_shape(raw: Seq<char>)
    ensures
        forall|i: int| 0 <= i < lines(raw).len() ==> !(#[trigger] lines(raw)[i]).contains('\n'),
        raw.len() > 0 ==> lines(raw).len() >= 1,
        raw.len() > 0 && !ends_in_newline(raw) ==> lines(raw).last().len() > 0,
    decreases raw.len(),
{
    if raw.len() > 0 {
        lemma_find_char(raw, '\n');
        match find_char(raw, '\n') {
            Some(i) => {
                let head = raw.take(i);
                let tail = raw.skip(i + 1);
                lemma_lines_shape(tail);
                let hb = line_body(head, true);
                assert(!hb.contains('\n')) by {
                    if hb.contains('\n') {
                        let k = choose|k: int| 0 <= k < hb.len() && hb[k] == '\n';
                        assert(raw[k] == '\n');
                    }
                }
                let ls = lines(raw);
                assert(ls == seq![hb] + lines(tail));
                assert forall|j: int| 0 <= j < ls.len() implies !(#[trigger] ls[j]).contains('\n') by {
                    if j > 0 {
                        assert(ls[j] == lines(tail)[j - 1]);
                    }
                }
                if !ends_in_newline(raw) {
                    assert(tail.len() > 0) by {
                        if tail.len() == 0 {
                            assert(i == raw.len() - 1);
                        }
                    }
                    assert(tail.last() == raw.last());
                    assert(ls.last() == lines(tail).last());
                }
            },
            None => {
                assert(lines(raw) == seq![raw]);
            },
        }
    }
}

/// The lines of a text without `\r` hold no line break; a text that does
/// not end in `\n` has a non-empty last line.
pub proof fn lemma_lines_of_clean(raw: Seq<char>)
    requires
        !raw.contains('\r'),
    ensures
        forall|i: int| 0 <= i < lines(raw).len() ==> one_line(#[trigger] lines(raw)[i]),
        raw.len() > 0 ==> lines(raw).len() >= 1,
        raw.len() > 0 && !ends_in_newline(raw) ==> lines(raw).last().len() > 0,
    decreases raw.len(),
{
    if raw.len() > 0 {
        lemma_find_char(raw, '\n');
        match find_char(raw, '\n') {
            Some(i) => {
                let head = raw.take(i);
                let tail = raw.skip(i + 1);
                assert(!tail.contains('\r')) by {
                    if tail.contains('\r') {
                        let k = choose|k: int| 0 <= k < tail.len() && tail[k] == '\r';
                        assert(raw[i + 1 + k] == '\r');
                    }
                }
                lemma_lines_of_clean(tail);
                assert(one_line(head)) by {
                    if head.contains('\n') {
                        let k = choose|k: int| 0 <= k < head.len() && head[k] == '\n';
                        assert(raw[k] == '\n');
                    }
                    if head.contains('\r') {
                        let k = choose|k: int| 0 <= k < head.len() && head[k] == '\r';
                        assert(raw[k] == '\r');
                    }
                }
                assert(line_body(head, true) == head) by {
                    if head.len() > 0 && head.last() == '\r' {
                        assert(head.contains('\r'));
                    }
                }
                let ls = lines(raw);
                assert(ls == seq![head] + lines(tail));
                assert forall|j: int| 0 <= j < ls.len() implies one_line(#[trigger] ls[j]) by {
                    if j > 0 {
                        assert(ls[j] == lines(tail)[j - 1]);
                    }
                }
                if !ends_in_newline(raw) {
                    assert(tail.len() > 0) by {
                        if tail.len() == 0 {
                            assert(i == raw.len() - 1);
                        }
                    }
                    assert(tail.last() == raw.last());
                    assert(ls.last() == lines(tail).last());
                }
            },
            None => {
                assert(lines(raw) == seq![raw]);
            },
        }
    }
}

/// Editing line `n` of a note changes that line and no other: the edited
/// note's lines are the old lines with line `n` replaced by its edit, and
/// the note ends in a line feed exactly when it did before. This holds of
/// notes without `\r` (whose lines `lines` reads back unchanged).
pub proof fn law_edit_only_target_line(raw: Seq<char>, n: usize, edit: LineEdit)
    requires
        edit.wf(),
        !raw.contains('\r'),
        edit_text_spec(raw, n, edit) is Ok,
    ensures
        ({
            let r = edit_text_spec(raw, n, edit).unwrap();
            let ls = lines(raw);
            &&& lines(r) == ls.update(n - 1, apply_edit_spec(ls[n - 1], edit).unwrap())
            &&& ends_in_newline(r) == ends_in_newline(raw)
        }),
{
    let ls = lines(raw);
    lemma_lines_of_clean(raw);
    let l = apply_edit_spec(ls[n - 1], edit).unwrap();
    lemma_edit_one_line(ls[n - 1], edit);
    let ls2 = ls.update(n - 1, l);
    let fin = ends_in_newline(raw);
    assert forall|i: int| 0 <= i < ls2.len() implies !(#[trigger] ls2[i]).contains('\n') && !ends_cr(
        ls2[i],
    ) by {
        if i != n - 1 {
            assert(ls2[i] == ls[i]);
        }
        lemma_one_line_no_cr_end(ls2[i]);
    }
    assert(!fin ==> ls2.last().len() > 0) by {
        if !fin {
            if n - 1 == ls.len() - 1 {
                assert(l.len() > 0) by {
                    lemma_edit_nonempty(ls[n - 1], edit);
                }
            } else {
                assert(ls2.last() == ls.last());
            }
        }
    }
    lemma_lines_join(ls2, fin);
    let r = with_final_newline(join_lines(ls2), fin);
    assert(edit_text_spec(raw, n, edit) == Ok::<Seq<char>, crate::vault::EditError>(r));
    assert(ends_in_newline(r) == fin) by {
        if !fin {
            assert(r == join_lines(ls2));
            assert(lines(r).last() == ls2.last());
            assert(r.len() > 0 ==> r.last() != '\n') by {
                lemma_join_last(ls2);
            }
        }
    }
}

/// An edited task line is never empty.
proof fn lemma_edit_nonempty(line: Seq<char>, edit: LineEdit)
    requires
        apply_edit_spec(line, edit) is Some,
    ensures
        apply_edit_spec(line, edit).unwrap().len() > 0,
{
    reveal_strlit(" [x] ");
    let t = parse_task_spec(seq![], 1, line).unwrap();
    lemma_parsed_shape(seq![], 1, line);
    match edit {
        LineEdit::Complete(d) => {
            assert(complete_line_spec(line, d).unwrap().len() >= 6);
        },
        LineEdit::Schedule(d) => {
            lemma_replace_date_nonempty(line, '⏳', d);
        },
        LineEdit::Defer(d) => {
            lemma_replace_date_nonempty(line, '📅', d);
        },
    }
}

proof fn lemma_replace_date_nonempty(line: Seq<char>, marker: char, d: Date)
    requires
        line.len() > 0,
    ensures
        replace_or_append_date_spec(line, marker, d).len() > 0,
{
    lemma_find_char(line, marker);
    match find_char(line, marker) {
        None => {},
        Some(p) => {
            lemma_lead_ws_bound(line.skip(p + 1));
            let a = p + 1 + lead_ws(line.skip(p + 1));
            lemma_byte_prefix_bound(line.skip(a), 10);
            match byte_prefix(line.skip(a), 10) {
                None => {},
                Some(k) => {
                    assert(a >= 1);
                    assert(line.take(a).len() >= 1);
                },
            }
        },
    }
}

/// Joined lines end with the last character of a non-empty last line.
pub proof fn lemma_join_last(ls: Seq<Seq<char>>)
    requires
        ls.len() >= 1,
        ls.last().len() > 0,
    ensures
        join_lines(ls).len() > 0 && join_lines(ls).last() == ls.last().last(),
{
    if ls.len() > 1 {
        assert(join_lines(ls) == join_with(ls.drop_last(), '\n') + seq!['\n'] + ls.last());
    }
}

} // verus!
