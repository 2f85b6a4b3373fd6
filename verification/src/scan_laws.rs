//! Laws of reading and backfilling notes: scanning yields exactly the tasks
//! on source lines, and backfill touches only the lines of open source
//! tasks without an ID.
use vstd::prelude::*;
use crate::edit_laws::{
    ends_cr, lemma_lines_join, lemma_lines_shape, lemma_one_line_chars, lemma_one_line_concat,
    lemma_one_line_no_cr_end, one_line,
};
use crate::task::{is_list_marker, line_with_id_spec, parse_task_spec, task_head};
use crate::task_laws::lemma_line_with_id_has_id;
use crate::text::{
    is_ws, join_lines, lemma_lead_ws_bound, lemma_trail_ws_bound, lead_ws, lines, starts_with,
    trail_ws, trim, trim_start, with_final_newline,
};
use crate::vault::{
    backfill_spec, backfilled_lines, count_needing, ends_in_newline, is_section_end,
    is_source_line, needs_id, scan_lines_spec, scan_note_spec, section_start_name, state_after,
};

verus! {

/// A parsed task carries the line number it was parsed with.
pub proof fn lemma_parse_line_number(path: Seq<char>, k: usize, line: Seq<char>)
    requires
        parse_task_spec(path, k, line) is Some,
    ensures
        parse_task_spec(path, k, line).unwrap().line_number == k,
        parse_task_spec(path, k, line).unwrap().path == path,
{
}

pub proof fn lemma_scan_lines(path: Seq<char>, ls: Seq<Seq<char>>, n: int)
    requires
        0 <= n <= ls.len(),
        ls.len() <= usize::MAX,
    ensures
        forall|i: int|
            0 <= i < scan_lines_spec(path, ls, n).len() ==> {
                let t = #[trigger] scan_lines_spec(path, ls, n)[i];
                &&& 1 <= t.line_number <= n
                &&& is_source_line(ls, t.line_number - 1)
                &&& parse_task_spec(path, t.line_number, ls[t.line_number - 1]) == Some(t)
            },
        forall|j: int|
            0 <= j < n && is_source_line(ls, j) && #[trigger] parse_task_spec(
                path,
                (j + 1) as usize,
                ls[j],
            ) is Some ==> scan_lines_spec(path, ls, n).contains(
                parse_task_spec(path, (j + 1) as usize, ls[j]).unwrap(),
            ),
    decreases n,
{
    if n > 0 {
        lemma_scan_lines(path, ls, n - 1);
        let sp = scan_lines_spec(path, ls, n - 1);
        let sn = scan_lines_spec(path, ls, n);
        let src = is_source_line(ls, n - 1) && parse_task_spec(path, n as usize, ls[n - 1]) is Some;
        if src {
            lemma_parse_line_number(path, n as usize, ls[n - 1]);
            assert(sn == sp.push(parse_task_spec(path, n as usize, ls[n - 1]).unwrap()));
        } else {
            assert(sn == sp);
        }
        assert forall|i: int| 0 <= i < sn.len() implies {
            let t = #[trigger] sn[i];
            &&& 1 <= t.line_number <= n
            &&& is_source_line(ls, t.line_number - 1)
            &&& parse_task_spec(path, t.line_number, ls[t.line_number - 1]) == Some(t)
        } by {
            if i < sp.len() {
                assert(sn[i] == sp[i]);
            }
        }
        assert forall|j: int|
            0 <= j < n && is_source_line(ls, j) && #[trigger] parse_task_spec(
                path,
                (j + 1) as usize,
                ls[j],
            ) is Some implies sn.contains(parse_task_spec(path, (j + 1) as usize, ls[j]).unwrap()) by {
            let t = parse_task_spec(path, (j + 1) as usize, ls[j]).unwrap();
            if j < n - 1 {
                let k = choose|k: int| 0 <= k < sp.len() && sp[k] == t;
                assert(sn[k] == sp[k]);
            } else {
                assert(sn[sn.len() - 1] == t);
            }
        }
    }
}

/// Scanning a note yields exactly the tasks on its source lines: each
/// scanned task is what its line parses to, on a line that is neither a
/// section marker nor inside a generated section other than the capture
/// inbox; and every such task line is scanned.
pub proof fn law_scan_source_tasks(path: Seq<char>, raw: Seq<char>)
    requires
        lines(raw).len() <= usize::MAX,
    ensures
        ({
            let ls = lines(raw);
            let ts = scan_note_spec(path, raw);
            &&& forall|i: int|
                0 <= i < ts.len() ==> {
                    let t = #[trigger] ts[i];
                    &&& 1 <= t.line_number <= ls.len()
                    &&& is_source_line(ls, t.line_number - 1)
                    &&& parse_task_spec(path, t.line_number, ls[t.line_number - 1]) == Some(t)
                }
            &&& forall|j: int|
                0 <= j < ls.len() && is_source_line(ls, j) && #[trigger] parse_task_spec(
                    path,
                    (j + 1) as usize,
                    ls[j],
                ) is Some ==> ts.contains(parse_task_spec(path, (j + 1) as usize, ls[j]).unwrap())
        }),
{
    lemma_scan_lines(path, lines(raw), lines(raw).len() as int);
}

/// Line `i` after backfill: with the next unused ID appended when it
/// needs one, else as it was.
pub proof fn lemma_backfilled_lines(ls: Seq<Seq<char>>, ids: Seq<Seq<char>>, n: int)
    requires
        0 <= n <= ls.len(),
    ensures
        backfilled_lines(ls, ids, n).len() == n,
        forall|i: int|
            0 <= i < n ==> #[trigger] backfilled_lines(ls, ids, n)[i] == (if needs_id(ls, i) {
                ls[i] + seq![' ', '🆔', ' '] + ids[count_needing(ls, i) as int]
            } else {
                ls[i]
            }),
    decreases n,
{
    if n > 0 {
        lemma_backfilled_lines(ls, ids, n - 1);
        let bp = backfilled_lines(ls, ids, n - 1);
        let bn = backfilled_lines(ls, ids, n);
        assert forall|i: int| 0 <= i < n implies #[trigger] bn[i] == (if needs_id(ls, i) {
            ls[i] + seq![' ', '🆔', ' '] + ids[count_needing(ls, i) as int]
        } else {
            ls[i]
        }) by {
            if i < n - 1 {
                assert(bn[i] == bp[i]);
            }
        }
    }
}

/// Each line of the note, as `str::lines` splits it, that still ends in
/// `\r` once its `\r\n` is taken off (as after `\r\r\n`) either gets an
/// ID from backfill or is a last line without `\n` after it. Notes with
/// `\n` or `\r\n` line ends have no such line at all.
pub open spec fn cr_ends_settled(raw: Seq<char>) -> bool {
    let ls = lines(raw);
    forall|i: int|
        0 <= i < ls.len() && ends_cr(#[trigger] ls[i]) && !needs_id(ls, i) ==> i == ls.len() - 1
            && !ends_in_newline(raw)
}

/// Backfill gives an ID to the lines that need one, in order, and leaves
/// every other line as it was, so the IDs that tasks already have are
/// kept. A line that needs one becomes the line with that ID added, as
/// `line_with_id` writes it. This holds of notes with `\n` or `\r\n` line
/// ends alike (backfill writes `\n`), for IDs without line breaks; it
/// leaves out only notes with a line that `\n` would follow and that ends
/// in a `\r` of its own but gets no ID, which the rewrite would drop.
pub proof fn law_backfill_keeps_other_lines(raw: Seq<char>, ids: Seq<Seq<char>>)
    requires
        cr_ends_settled(raw),
        ids.len() >= count_needing(lines(raw), lines(raw).len() as int),
        forall|k: int| 0 <= k < ids.len() ==> one_line(#[trigger] ids[k]),
    ensures
        ({
            let ls = lines(raw);
            let out = lines(backfill_spec(raw, ids));
            &&& out.len() == ls.len()
            &&& forall|i: int| 0 <= i < ls.len() && !needs_id(ls, i) ==> #[trigger] out[i] == ls[i]
            &&& forall|i: int|
                0 <= i < ls.len() && needs_id(ls, i) ==> #[trigger] out[i] == ls[i] + seq![
                    ' ',
                    '🆔',
                    ' ',
                ] + ids[count_needing(ls, i) as int] && out[i] == line_with_id_spec(
                    ls[i],
                    ids[count_needing(ls, i) as int],
                ).unwrap()
            &&& ends_in_newline(backfill_spec(raw, ids)) == ends_in_newline(raw)
        }),
{
    let ls = lines(raw);
    let n = ls.len() as int;
    lemma_lines_shape(raw);
    lemma_backfilled_lines(ls, ids, n);
    let bl = backfilled_lines(ls, ids, n);
    let fin = ends_in_newline(raw);
    lemma_one_line_chars(seq![' ', '🆔', ' ']);
    assert forall|i: int| 0 <= i < n implies !(#[trigger] bl[i]).contains('\n') && ((i < n - 1
        || fin) ==> !ends_cr(bl[i])) by {
        if needs_id(ls, i) {
            lemma_count_needing_lt(ls, i, n);
            let id = ids[count_needing(ls, i) as int];
            let tail = seq![' ', '🆔', ' '] + id;
            lemma_one_line_concat(seq![' ', '🆔', ' '], id);
            lemma_one_line_no_cr_end(tail);
            assert(bl[i] =~= ls[i] + tail);
            assert(!bl[i].contains('\n')) by {
                if bl[i].contains('\n') {
                    let k = choose|k: int| 0 <= k < bl[i].len() && bl[i][k] == '\n';
                    if k < ls[i].len() {
                        assert(ls[i][k] == '\n');
                    } else {
                        assert(tail[k - ls[i].len()] == '\n');
                    }
                }
            }
            assert(bl[i].last() == tail.last());
        }
    }
    if n == 0 {
        assert(raw.len() == 0);
        assert(bl =~= Seq::<Seq<char>>::empty());
        assert(backfill_spec(raw, ids) =~= Seq::<char>::empty());
        assert(lines(Seq::<char>::empty()) =~= Seq::<Seq<char>>::empty());
    } else {
        assert(!fin ==> bl.last().len() > 0) by {
            if !fin {
                assert(bl.last() == bl[n - 1]);
                assert(ls.last() == ls[n - 1]);
            }
        }
        lemma_lines_join(bl, fin);
        assert(backfill_spec(raw, ids) == with_final_newline(join_lines(bl), fin));
        assert(ends_in_newline(backfill_spec(raw, ids)) == fin) by {
            if !fin {
                crate::edit_laws::lemma_join_last(bl);
                assert(bl.last()[bl.last().len() - 1] != '\n') by {
                    assert(bl.last() == bl[n - 1]);
                }
            }
        }
    }
    assert forall|i: int| 0 <= i < n && needs_id(ls, i) implies lines(backfill_spec(raw, ids))[i]
        == line_with_id_spec(ls[i], ids[count_needing(ls, i) as int]).unwrap() by {
        assert(parse_task_spec(seq![], 1, ls[i]) is Some);
    }
}

/// A line that needs an ID is counted after the lines before it.
proof fn lemma_count_needing_lt(ls: Seq<Seq<char>>, i: int, n: int)
    requires
        0 <= i < n,
        needs_id(ls, i),
    ensures
        count_needing(ls, i) < count_needing(ls, n),
    decreases n - i,
{
    if i + 1 < n {
        lemma_count_needing_lt(ls, i, n - 1);
    }
}

/// A task line is no section marker: trimmed, it starts with its list
/// marker, not with `<`.
pub proof fn lemma_task_not_marker(l: Seq<char>)
    requires
        parse_task_spec(seq![], 1, l) is Some,
    ensures
        section_start_name(l) is None,
        !is_section_end(l),
{
    reveal_strlit("<!-- focus:");
    let k = task_head(l).unwrap();
    lemma_lead_ws_bound(l);
    assert(k == lead_ws(l));
    let t0 = trim_start(l);
    assert(t0[0] == l[k]);
    assert(is_list_marker(l[k]));
    assert(!is_ws(t0[0]));
    lemma_trail_ws_bound(t0);
    assert(trail_ws(t0) < t0.len()) by {
        if trail_ws(t0) == t0.len() {
            assert(is_ws(t0[0]));
        }
    }
    let t = trim(l);
    assert(t[0] == t0[0]);
    if starts_with(t, "<!-- focus:"@) {
        assert(t.take(11)[0] == t[0]);
        assert("<!-- focus:"@[0] == '<');
    }
}

/// Notes whose lines agree on which are section markers agree on the
/// section that each line is in.
proof fn lemma_state_same(ls: Seq<Seq<char>>, out: Seq<Seq<char>>, n: int)
    requires
        ls.len() == out.len(),
        0 <= n <= ls.len(),
        forall|i: int|
            0 <= i < ls.len() ==> section_start_name(#[trigger] out[i]) == section_start_name(ls[i])
                && is_section_end(out[i]) == is_section_end(ls[i]),
    ensures
        state_after(out, n) == state_after(ls, n),
    decreases n,
{
    if n > 0 {
        lemma_state_same(ls, out, n - 1);
        assert(section_start_name(out[n - 1]) == section_start_name(ls[n - 1]));
    }
}

proof fn lemma_count_none(ls: Seq<Seq<char>>, n: int)
    requires
        0 <= n <= ls.len(),
        forall|i: int| 0 <= i < ls.len() ==> !#[trigger] needs_id(ls, i),
    ensures
        count_needing(ls, n) == 0,
    decreases n,
{
    if n > 0 {
        lemma_count_none(ls, n - 1);
    }
}

/// A backfilled note needs no more IDs, and a second backfill leaves it as
/// it is: every ID, old or new, is kept. This holds of notes with `\n` or
/// `\r\n` line ends alike, with IDs that are non-empty runs of
/// non-whitespace characters; it leaves out only the notes that the law on
/// the lines backfill keeps leaves out.
pub proof fn law_backfill_twice(raw: Seq<char>, ids: Seq<Seq<char>>, ids2: Seq<Seq<char>>)
    requires
        cr_ends_settled(raw),
        ids.len() >= count_needing(lines(raw), lines(raw).len() as int),
        forall|k: int|
            0 <= k < ids.len() ==> (#[trigger] ids[k]).len() > 0 && forall|j: int|
                0 <= j < ids[k].len() ==> !is_ws(#[trigger] ids[k][j]),
    ensures
        count_needing(
            lines(backfill_spec(raw, ids)),
            lines(backfill_spec(raw, ids)).len() as int,
        ) == 0,
        backfill_spec(backfill_spec(raw, ids), ids2) == backfill_spec(raw, ids),
{
    let ls = lines(raw);
    let n = ls.len() as int;
    assert forall|k: int| 0 <= k < ids.len() implies one_line(#[trigger] ids[k]) by {
        lemma_one_line_chars(ids[k]);
    }
    law_backfill_keeps_other_lines(raw, ids);
    let r1 = backfill_spec(raw, ids);
    let out = lines(r1);
    lemma_backfilled_lines(ls, ids, n);
    let bl = backfilled_lines(ls, ids, n);
    assert(out =~= bl);
    // Task lines stay task lines, and no marker line changes.
    assert forall|i: int| 0 <= i < n implies section_start_name(#[trigger] out[i])
        == section_start_name(ls[i]) && is_section_end(out[i]) == is_section_end(ls[i]) by {
        if needs_id(ls, i) {
            let id = ids[count_needing(ls, i) as int];
            lemma_count_needing_lt(ls, i, n);
            lemma_line_with_id_has_id(ls[i], id);
            lemma_task_not_marker(ls[i]);
            lemma_task_not_marker(out[i]);
        }
    }
    assert forall|i: int| 0 <= i < n implies !#[trigger] needs_id(out, i) by {
        lemma_state_same(ls, out, i);
        if needs_id(ls, i) {
            let id = ids[count_needing(ls, i) as int];
            lemma_count_needing_lt(ls, i, n);
            lemma_line_with_id_has_id(ls[i], id);
        } else {
            assert(out[i] == ls[i]);
        }
    }
    lemma_count_none(out, n);
    let ids2_lines = backfilled_lines(out, ids2, n);
    lemma_backfilled_lines(out, ids2, n);
    assert(ids2_lines =~= out);
    assert(backfill_spec(r1, ids2) == with_final_newline(join_lines(ids2_lines), ends_in_newline(r1)));
    assert(r1 == with_final_newline(join_lines(bl), ends_in_newline(raw)));
}

/// The line is no section marker.
pub open spec fn plain_line(l: Seq<char>) -> bool {
    section_start_name(l) is None && !is_section_end(l)
}

proof fn lemma_state_from_start(ls: Seq<Seq<char>>, j: int, i: int)
    requires
        0 <= j < i <= ls.len(),
        section_start_name(ls[j]) is Some,
        forall|k: int| j < k < i ==> plain_line(#[trigger] ls[k]),
    ensures
        state_after(ls, i) == section_start_name(ls[j]),
    decreases i,
{
    if i > j + 1 {
        assert(plain_line(ls[i - 1]));
        lemma_state_from_start(ls, j, i - 1);
    }
}

proof fn lemma_state_from_end(ls: Seq<Seq<char>>, j: int, i: int)
    requires
        0 <= j < i <= ls.len(),
        section_start_name(ls[j]) is None,
        is_section_end(ls[j]),
        forall|k: int| j < k < i ==> plain_line(#[trigger] ls[k]),
    ensures
        state_after(ls, i) is None,
    decreases i,
{
    if i > j + 1 {
        assert(plain_line(ls[i - 1]));
        lemma_state_from_end(ls, j, i - 1);
    }
}

proof fn lemma_state_from_top(ls: Seq<Seq<char>>, i: int)
    requires
        0 <= i <= ls.len(),
        forall|k: int| 0 <= k < i ==> plain_line(#[trigger] ls[k]),
    ensures
        state_after(ls, i) is None,
    decreases i,
{
    if i > 0 {
        assert(plain_line(ls[i - 1]));
        lemma_state_from_top(ls, i - 1);
    }
}

/// Which lines scanning reads tasks from: no marker line; a line before any
/// marker; a line after an end marker with no marker between; and, inside a
/// generated section (after its start marker, with no marker between), a
/// line only when that section is the capture inbox.
pub proof fn law_source_lines(ls: Seq<Seq<char>>, i: int)
    requires
        0 <= i < ls.len(),
    ensures
        !plain_line(ls[i]) ==> !is_source_line(ls, i),
        plain_line(ls[i]) && (forall|k: int| 0 <= k < i ==> plain_line(#[trigger] ls[k]))
            ==> is_source_line(ls, i),
        forall|j: int|
            0 <= j < i && is_section_end(#[trigger] ls[j]) && section_start_name(ls[j]) is None
                && plain_line(ls[i]) && (forall|k: int| j < k < i ==> plain_line(#[trigger] ls[k]))
                ==> is_source_line(ls, i),
        forall|j: int|
            0 <= j < i && (#[trigger] section_start_name(ls[j])) is Some && plain_line(ls[i])
                && (forall|k: int| j < k < i ==> plain_line(#[trigger] ls[k])) ==> (is_source_line(
                ls,
                i,
            ) <==> section_start_name(ls[j]) == Some("inbox"@)),
{
    if plain_line(ls[i]) && (forall|k: int| 0 <= k < i ==> plain_line(#[trigger] ls[k])) {
        lemma_state_from_top(ls, i);
    }
    assert forall|j: int|
        0 <= j < i && is_section_end(#[trigger] ls[j]) && section_start_name(ls[j]) is None
            && plain_line(ls[i]) && (forall|k: int| j < k < i ==> plain_line(#[trigger] ls[k]))
        implies is_source_line(ls, i) by {
        lemma_state_from_end(ls, j, i);
    }
    assert forall|j: int|
        0 <= j < i && (#[trigger] section_start_name(ls[j])) is Some && plain_line(ls[i]) && (
        forall|k: int| j < k < i ==> plain_line(#[trigger] ls[k])) implies (is_source_line(
        ls,
        i,
    ) <==> section_start_name(ls[j]) == Some("inbox"@)) by {
        lemma_state_from_start(ls, j, i);
    }
}

} // verus!
