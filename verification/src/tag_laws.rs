//! Laws of what capture's metadata reads back as: the tags, priority,
//! person, project and waiting flag of the line that capture writes.
use vstd::prelude::*;
use crate::date::{is_digit, lemma_date_text_chars, Date};
use crate::capture_laws::{
    capture_core, capture_text, free_of_marks, law_capture_line_reads_back, tag_parts, tag_suffix,
};
use crate::task::{
    ci_char, ci_prefix, first_with_prefix, waiting_name, waiting_start,
    parse_task_spec, person_of, priority_of, priority_part, project_of, tags_of, waiting_lead,
    Priority, date_part, task_line_spec, is_ascii_alnum, is_tag_punct, is_tag_word, lowercase, slug_char, slug_spec,
    tag_of_word, tags_of_words, trail_punct,
};
use crate::text::{
    is_ws, join_with, lead_not, lead_nonws, lemma_lead_not_bound, lemma_lead_nonws_bound,
    lemma_lead_nonws_run, segments, trim, words, find_sub, lemma_find_sub_from,
    find_char, lemma_find_char, lemma_find_char_at, lemma_find_char_concat, replace_char, starts_with,
};

verus! {

/// Words of a text that a whitespace character (or nothing) follows: the
/// words of each part.
pub proof fn lemma_words_concat(a: Seq<char>, b: Seq<char>)
    requires
        b.len() == 0 || is_ws(b[0]),
    ensures
        words(a + b) == words(a) + words(b),
    decreases a.len(),
{
    let s = a + b;
    if a.len() == 0 {
        assert(s =~= b);
        assert(words(a) =~= Seq::<Seq<char>>::empty());
        assert(words(a) + words(b) =~= words(b));
    } else if is_ws(a[0]) {
        assert(s.drop_first() =~= a.drop_first() + b);
        lemma_words_concat(a.drop_first(), b);
    } else {
        lemma_lead_nonws_bound(a);
        let l = lead_nonws(a) as int;
        assert(l >= 1) by {
            reveal_with_fuel(lead_nonws, 2);
        }
        assert forall|k: int| 0 <= k < l implies !is_ws(#[trigger] s[k]) by {
            assert(s[k] == a[k]);
        }
        if l < a.len() {
            assert(s[l] == a[l]);
        } else if b.len() > 0 {
            assert(s[l] == b[0]);
        }
        lemma_lead_nonws_run(s, 0, l);
        assert(s.skip(0) =~= s);
        assert(a.skip(0) =~= a);
        lemma_lead_nonws_run(a, 0, l);
        assert(s.take(l) =~= a.take(l));
        assert(s.skip(l) =~= a.skip(l) + b);
        lemma_words_concat(a.skip(l), b);
        assert(words(s) == seq![s.take(l)] + words(s.skip(l)));
        assert(words(a) == seq![a.take(l)] + words(a.skip(l)));
        assert(words(s) =~= words(a) + words(b));
    }
}

/// The tags of two runs of words, one after the other.
pub proof fn lemma_tags_concat(w1: Seq<Seq<char>>, w2: Seq<Seq<char>>)
    ensures
        tags_of_words(w1 + w2) == tags_of_words(w1) + tags_of_words(w2),
    decreases w2.len(),
{
    if w2.len() == 0 {
        assert(w1 + w2 =~= w1);
        assert(tags_of_words(w2) =~= Seq::<Seq<char>>::empty());
        assert(tags_of_words(w1) + tags_of_words(w2) =~= tags_of_words(w1));
    } else {
        assert((w1 + w2).drop_last() =~= w1 + w2.drop_last());
        assert((w1 + w2).last() == w2.last());
        lemma_tags_concat(w1, w2.drop_last());
        assert(tags_of_words(w1 + w2) =~= tags_of_words(w1) + tags_of_words(w2));
    }
}

/// A text without `#` has no tags.
pub proof fn lemma_no_hash_no_tags(s: Seq<char>)
    requires
        !s.contains('#'),
    ensures
        tags_of_words(words(s)) == Seq::<Seq<char>>::empty(),
    decreases s.len(),
{
    if s.len() == 0 {
        assert(words(s) =~= Seq::<Seq<char>>::empty());
    } else if is_ws(s[0]) {
        assert(!s.drop_first().contains('#')) by {
            if s.drop_first().contains('#') {
                let k = choose|k: int| 0 <= k < s.len() - 1 && s.drop_first()[k] == '#';
                assert(s[k + 1] == '#');
            }
        }
        lemma_no_hash_no_tags(s.drop_first());
    } else {
        lemma_lead_nonws_bound(s);
        let l = lead_nonws(s) as int;
        assert(l >= 1) by {
            reveal_with_fuel(lead_nonws, 2);
        }
        assert(!s.skip(l).contains('#')) by {
            if s.skip(l).contains('#') {
                let k = choose|k: int| 0 <= k < s.len() - l && s.skip(l)[k] == '#';
                assert(s[k + l] == '#');
            }
        }
        lemma_no_hash_no_tags(s.skip(l));
        let w = s.take(l);
        assert(w[0] == s[0]);
        assert(s[0] != '#');
        assert(words(s) == seq![w] + words(s.skip(l)));
        lemma_tags_concat(seq![w], words(s.skip(l)));
        lemma_tags_one(w);
    }
}

/// A space and one tag word: that tag.
pub proof fn lemma_one_tag(w: Seq<char>)
    requires
        w.len() > 1,
        w[0] == '#',
        forall|i: int| 0 <= i < w.len() ==> !is_ws(#[trigger] w[i]),
        !is_tag_punct(w.last()),
    ensures
        tags_of_words(words(seq![' '] + w)) == seq![w],
{
    let s = seq![' '] + w;
    assert(s.drop_first() =~= w);
    lemma_lead_nonws_run(w, 0, w.len() as int);
    assert(w.skip(0) =~= w);
    assert(w.take(w.len() as int) =~= w);
    assert(w.skip(w.len() as int) =~= Seq::<char>::empty());
    assert(words(w) == seq![w] + words(Seq::<char>::empty()));
    assert(words(w) =~= seq![w]);
    assert(trail_punct(w) == 0);
    assert(tag_of_word(w) =~= w);
    lemma_tags_one(w);
}

/// The tags of a single word.
pub proof fn lemma_tags_one(w: Seq<char>)
    ensures
        tags_of_words(seq![w]) == (if is_tag_word(w) {
            seq![tag_of_word(w)]
        } else {
            Seq::<Seq<char>>::empty()
        }),
{
    let ws = seq![w];
    assert(ws.drop_last() =~= Seq::<Seq<char>>::empty());
    assert(ws.last() == w);
    assert(tags_of_words(ws.drop_last()) == Seq::<Seq<char>>::empty());
    assert(tags_of_words(ws) == tags_of_words(ws.drop_last()) + (if is_tag_word(w) {
        seq![tag_of_word(w)]
    } else {
        Seq::<Seq<char>>::empty()
    }));
    assert(Seq::<Seq<char>>::empty() + seq![tag_of_word(w)] =~= seq![tag_of_word(w)]);
    assert(Seq::<Seq<char>>::empty() + Seq::<Seq<char>>::empty() =~= Seq::<Seq<char>>::empty());
}


/// A slug character: an ASCII letter or digit, or `-`.
pub open spec fn is_slug_char(c: char) -> bool {
    is_ascii_alnum(c) || c == '-'
}

/// Every character of the text meets the predicate.
pub open spec fn all_chars(s: Seq<char>, f: spec_fn(char) -> bool) -> bool {
    forall|i: int| 0 <= i < s.len() ==> f(#[trigger] s[i])
}

pub proof fn lemma_all_concat(a: Seq<char>, b: Seq<char>, f: spec_fn(char) -> bool)
    requires
        all_chars(a, f),
        all_chars(b, f),
    ensures
        all_chars(a + b, f),
{
    assert forall|i: int| 0 <= i < (a + b).len() implies f(#[trigger] (a + b)[i]) by {
        if i < a.len() {
            assert((a + b)[i] == a[i]);
        } else {
            assert((a + b)[i] == b[i - a.len()]);
        }
    }
}

pub proof fn lemma_all_lacks(s: Seq<char>, f: spec_fn(char) -> bool, c: char)
    requires
        all_chars(s, f),
        !f(c),
    ensures
        !s.contains(c),
{
    if s.contains(c) {
        let i = choose|i: int| 0 <= i < s.len() && s[i] == c;
        assert(f(s[i]));
    }
}

proof fn lemma_segments_all(s: Seq<char>, sep: char, f: spec_fn(char) -> bool)
    requires
        all_chars(s, f),
    ensures
        forall|i: int| 0 <= i < segments(s, sep).len() ==> all_chars(#[trigger] segments(s, sep)[i], f),
    decreases s.len(),
{
    if s.len() == 0 {
        assert(segments(s, sep).len() == 0);
    } else {
        assert forall|i: int| 0 <= i < s.len() - 1 implies f(#[trigger] s.drop_first()[i]) by {
            assert(s.drop_first()[i] == s[i + 1]);
        }
        if s[0] == sep {
            lemma_segments_all(s.drop_first(), sep, f);
            assert(segments(s, sep) == segments(s.drop_first(), sep));
        } else {
            lemma_lead_not_bound(s, sep);
            let k = lead_not(s, sep) as int;
            assert(k >= 1) by {
                reveal_with_fuel(lead_not, 2);
            }
            assert forall|i: int| 0 <= i < s.len() - k implies f(#[trigger] s.skip(k)[i]) by {
                assert(s.skip(k)[i] == s[i + k]);
            }
            lemma_segments_all(s.skip(k), sep, f);
            let segs = segments(s, sep);
            assert(segs == seq![s.take(k)] + segments(s.skip(k), sep));
            assert forall|i: int| 0 <= i < segs.len() implies all_chars(#[trigger] segs[i], f) by {
                if i == 0 {
                    assert forall|j: int| 0 <= j < s.take(k).len() implies f(#[trigger] s.take(k)[j]) by {
                        assert(s.take(k)[j] == s[j]);
                    }
                } else {
                    assert(segs[i] == segments(s.skip(k), sep)[i - 1]);
                }
            }
        }
    }
}

proof fn lemma_join_all(ls: Seq<Seq<char>>, sep: char, f: spec_fn(char) -> bool)
    requires
        f(sep),
        forall|i: int| 0 <= i < ls.len() ==> all_chars(#[trigger] ls[i], f),
    ensures
        all_chars(join_with(ls, sep), f),
    decreases ls.len(),
{
    if ls.len() > 1 {
        assert forall|i: int| 0 <= i < ls.drop_last().len() implies all_chars(
            #[trigger] ls.drop_last()[i],
            f,
        ) by {
            assert(ls.drop_last()[i] == ls[i]);
        }
        lemma_join_all(ls.drop_last(), sep, f);
        assert(all_chars(ls.last(), f));
        assert(all_chars(seq![sep], f));
        lemma_all_concat(join_with(ls.drop_last(), sep), seq![sep], f);
        lemma_all_concat(join_with(ls.drop_last(), sep) + seq![sep], ls.last(), f);
    } else if ls.len() == 1 {
        assert(all_chars(ls[0], f));
    }
}

/// Slug characters, as a predicate.
pub open spec fn slug_ok() -> spec_fn(char) -> bool {
    |c: char| is_slug_char(c)
}

/// A project slug holds ASCII letters, digits and `-` only.
pub proof fn lemma_slug_chars(p: Seq<char>)
    ensures
        all_chars(slug_spec(p), slug_ok()),
{
    let f = slug_ok();
    let mapped = lowercase(trim(p)).map_values(|c: char| slug_char(c));
    assert forall|i: int| 0 <= i < mapped.len() implies f(#[trigger] mapped[i]) by {
        let c = lowercase(trim(p))[i];
        assert(mapped[i] == slug_char(c));
    }
    lemma_segments_all(mapped, '-', f);
    lemma_join_all(segments(mapped, '-'), '-', f);
}

/// Priority emojis.
pub open spec fn is_priority_emoji(c: char) -> bool {
    c == '🔺' || c == '⏫' || c == '🔼' || c == '🔽' || c == '⏬'
}

/// Characters that capture's tags, person and priority are read by.
pub open spec fn is_meta(c: char) -> bool {
    c == '#' || c == ':' || is_priority_emoji(c)
}

pub open spec fn not_meta() -> spec_fn(char) -> bool {
    |c: char| !is_meta(c)
}

pub open spec fn no_hash_prio() -> spec_fn(char) -> bool {
    |c: char| c != '#' && !is_priority_emoji(c)
}

pub open spec fn no_colon_prio() -> spec_fn(char) -> bool {
    |c: char| c != ':' && !is_priority_emoji(c)
}

pub open spec fn not_prio() -> spec_fn(char) -> bool {
    |c: char| !is_priority_emoji(c)
}

/// The tag that a word adds, if it is a tag word.
pub open spec fn id_tags(w: Seq<char>) -> Seq<Seq<char>> {
    if is_tag_word(w) {
        seq![tag_of_word(w)]
    } else {
        Seq::<Seq<char>>::empty()
    }
}

/// A tag that the waiting flag, the person or the project is read from.
pub open spec fn meta_tag(t: Seq<char>) -> bool {
    t == "#waiting"@ || starts_with(t, "#waiting/"@) || starts_with(t, "#project/"@)
}

/// A `:` in the ID closes no `waiting on `/`waiting for ` opening of the
/// text: the ID has no `:`, capture writes the opening itself, or the text
/// names no person even when ` #:` follows it.
pub open spec fn id_colon_safe(
    text: Seq<char>,
    person: Option<Seq<char>>,
    waiting: bool,
    id: Seq<char>,
) -> bool {
    !id.contains(':') || (waiting && person is Some) || waiting_name(text + seq![' ', '#', ':'])
        is None
}

/// Text that holds none of `#`, `:` or a priority emoji.
pub open spec fn meta_free(s: Seq<char>) -> bool {
    all_chars(s, not_meta())
}

/// A date's part holds none of `#`, `:` or a priority emoji.
proof fn lemma_date_part_meta(marker: char, d: Option<Date>)
    requires
        d matches Some(x) ==> x.wf(),
        !is_meta(marker),
    ensures
        meta_free(date_part(marker, d)),
{
    if let Some(x) = d {
        lemma_date_text_chars(x);
        let dp = date_part(marker, d);
        assert forall|i: int| 0 <= i < dp.len() implies not_meta()(#[trigger] dp[i]) by {
            if i >= 3 {
                assert(dp[i] == x.text()[i - 3]);
                if is_digit(x.text()[i - 3]) {
                }
            }
        }
    }
}

/// The tags that capture writes: `#waiting` for a waiting task, then the
/// project tag.
pub open spec fn capture_tags(waiting: bool, project: Option<Seq<char>>) -> Seq<Seq<char>> {
    (if waiting {
        seq!["#waiting"@]
    } else {
        Seq::<Seq<char>>::empty()
    }) + match project {
        Some(q) => seq!["#project/"@ + slug_spec(q)],
        None => Seq::<Seq<char>>::empty(),
    }
}

/// A parsed task's metadata is read from its text.
pub proof fn lemma_parse_fields(line: Seq<char>)
    requires
        parse_task_spec(seq![], 1, line) is Some,
    ensures
        ({
            let t = parse_task_spec(seq![], 1, line).unwrap();
            &&& t.tags == tags_of(t.text)
            &&& t.priority == priority_of(t.text)
            &&& t.person == person_of(t.text, t.tags)
            &&& t.project == project_of(t.tags)
        }),
{
}

pub proof fn lemma_contains_concat(a: Seq<char>, b: Seq<char>, e: char)
    ensures
        (a + b).contains(e) <==> a.contains(e) || b.contains(e),
{
    if (a + b).contains(e) {
        let i = choose|i: int| 0 <= i < (a + b).len() && (a + b)[i] == e;
        if i < a.len() {
            assert(a[i] == e);
        } else {
            assert(b[i - a.len()] == e);
        }
    }
    if a.contains(e) {
        let i = choose|i: int| 0 <= i < a.len() && a[i] == e;
        assert((a + b)[i] == e);
    }
    if b.contains(e) {
        let i = choose|i: int| 0 <= i < b.len() && b[i] == e;
        assert((a + b)[i + a.len()] == e);
    }
}

/// A text without `#` holds no `#waiting`.
proof fn lemma_no_hash_no_waiting(s: Seq<char>)
    requires
        !s.contains('#'),
    ensures
        find_sub(s, "#waiting"@) is None,
{
    reveal_strlit("#waiting");
    lemma_find_sub_from(s, "#waiting"@, 0);
    if let Some(i) = find_sub(s, "#waiting"@) {
        assert(s.subrange(i, i + 8)[0] == s[i]);
        assert(s[i] == '#');
    }
}

/// The text capture leads with: no `#` or priority emoji, and no `:`
/// either unless it names the person waited on.
proof fn lemma_lead_meta(text: Seq<char>, person: Option<Seq<char>>, waiting: bool)
    requires
        all_chars(text, no_hash_prio()),
        person matches Some(p) ==> meta_free(p),
    ensures
        all_chars(waiting_lead(text, person, waiting), no_hash_prio()),
{
    reveal_strlit("Waiting on ");
    reveal_strlit(": ");
    let lead = waiting_lead(text, person, waiting);
    let f1 = no_hash_prio();
    let fm = not_meta();
    if waiting && person is Some {
        let p = person.unwrap();
        assert forall|i: int| 0 <= i < lead.len() implies f1(#[trigger] lead[i]) by {
            if i < 11 {
            } else if i < 11 + p.len() {
                assert(lead[i] == p[i - 11]);
                assert(fm(p[i - 11]));
            } else if i < 13 + p.len() {
            } else {
                assert(lead[i] == text[i - 13 - p.len()]);
                assert(f1(text[i - 13 - p.len()]));
            }
        }
    } else {
        assert forall|i: int| 0 <= i < lead.len() implies f1(#[trigger] lead[i]) by {
            assert(f1(text[i]));
        }
    }
}

/// The text, priority and dates of capture hold no `#`.
proof fn lemma_core_meta(
    text: Seq<char>,
    due: Option<Date>,
    scheduled: Option<Date>,
    start: Option<Date>,
    priority: Option<Priority>,
    person: Option<Seq<char>>,
    waiting: bool,
)
    requires
        all_chars(text, no_hash_prio()),
        person matches Some(p) ==> meta_free(p),
        due matches Some(x) ==> x.wf(),
        scheduled matches Some(x) ==> x.wf(),
        start matches Some(x) ==> x.wf(),
    ensures
        ({
            let lead = waiting_lead(text, person, waiting);
            let dd = date_part('🛫', start) + date_part('⏳', scheduled) + date_part('📅', due);
            let core = capture_core(text, due, scheduled, start, priority, person, waiting);
            &&& core == lead + priority_part(priority) + dd
            &&& meta_free(dd)
            &&& !core.contains('#')
        }),
{
    let lead = waiting_lead(text, person, waiting);
    let pp = priority_part(priority);
    let sp = date_part('🛫', start);
    let schp = date_part('⏳', scheduled);
    let dp = date_part('📅', due);
    let dd = sp + schp + dp;
    let core = capture_core(text, due, scheduled, start, priority, person, waiting);
    assert(core =~= lead + pp + dd);
    let fm = not_meta();
    lemma_lead_meta(text, person, waiting);
    lemma_date_part_meta('🛫', start);
    lemma_date_part_meta('⏳', scheduled);
    lemma_date_part_meta('📅', due);
    lemma_all_concat(sp, schp, fm);
    lemma_all_concat(sp + schp, dp, fm);
    lemma_all_lacks(lead, no_hash_prio(), '#');
    lemma_all_lacks(dd, fm, '#');
    assert(!pp.contains('#')) by {
        if pp.contains('#') {
            let i = choose|i: int| 0 <= i < pp.len() && pp[i] == '#';
        }
    }
    lemma_contains_concat(lead, pp, '#');
    lemma_contains_concat(lead + pp, dd, '#');
}

/// What capture writes after its text, priority and dates.
proof fn lemma_tail_meta(core: Seq<char>, waiting: bool, project: Option<Seq<char>>)
    requires
        !core.contains('#'),
    ensures
        ({
            let wt = tag_parts(core, waiting, project).0;
            let pj = tag_parts(core, waiting, project).1;
            &&& wt == (if waiting {
                seq![' '] + "#waiting"@
            } else {
                Seq::<char>::empty()
            })
            &&& pj == (match project {
                Some(q) => seq![' '] + ("#project/"@ + slug_spec(q)),
                None => Seq::<char>::empty(),
            })
            &&& all_chars(wt, no_colon_prio())
            &&& all_chars(pj, no_colon_prio())
        }),
{
    reveal_strlit(" #waiting");
    reveal_strlit("#waiting");
    reveal_strlit(" #project/");
    reveal_strlit("#project/");
    lemma_no_hash_no_waiting(core);
    let (wt, pj) = tag_parts(core, waiting, project);
    let f3 = no_colon_prio();
    if waiting {
        assert(wt =~= seq![' '] + "#waiting"@);
    }
    if let Some(q) = project {
        assert(pj =~= seq![' '] + ("#project/"@ + slug_spec(q)));
        lemma_slug_chars(q);
        let sl = slug_spec(q);
        assert forall|i: int| 0 <= i < pj.len() implies f3(#[trigger] pj[i]) by {
            if i >= 10 {
                assert(pj[i] == sl[i - 10]);
                assert(slug_ok()(sl[i - 10]));
            }
        }
    }
}

/// The ID part: no priority emoji when the ID has none, and no `:` when
/// the ID has none; it opens with a space and `🆔`.
proof fn lemma_id_part(id: Seq<char>)
    requires
        all_chars(id, not_prio()),
    ensures
        all_chars(seq![' ', '🆔', ' '] + id, not_prio()),
        opens_with_mark(seq![' ', '🆔', ' '] + id),
        !id.contains(':') ==> !(seq![' ', '🆔', ' '] + id).contains(':'),
{
    let idp = seq![' ', '🆔', ' '] + id;
    let f = not_prio();
    assert forall|i: int| 0 <= i < idp.len() implies f(#[trigger] idp[i]) by {
        if i >= 3 {
            assert(idp[i] == id[i - 3]);
            assert(f(id[i - 3]));
        }
    }
    if !id.contains(':') {
        assert(!seq![' ', '🆔', ' '].contains(':')) by {
            if seq![' ', '🆔', ' '].contains(':') {
                let k = choose|k: int| 0 <= k < 3 && seq![' ', '🆔', ' '][k] == ':';
            }
        }
        lemma_contains_concat(seq![' ', '🆔', ' '], id, ':');
    }
}

/// A space and one word: that word.
proof fn lemma_one_word(w: Seq<char>)
    requires
        w.len() > 0,
        forall|i: int| 0 <= i < w.len() ==> !is_ws(#[trigger] w[i]),
    ensures
        words(seq![' '] + w) == seq![w],
{
    let s = seq![' '] + w;
    assert(s.drop_first() =~= w);
    lemma_lead_nonws_run(w, 0, w.len() as int);
    assert(w.skip(0) =~= w);
    assert(w.take(w.len() as int) =~= w);
    assert(w.skip(w.len() as int) =~= Seq::<char>::empty());
    assert(words(w) == seq![w] + words(Seq::<char>::empty()));
    assert(words(w) =~= seq![w]);
}

/// The tags of the ID part: the ID's own, if it is a tag word.
proof fn lemma_id_tags(id: Seq<char>)
    requires
        id.len() > 0,
        forall|i: int| 0 <= i < id.len() ==> !is_ws(#[trigger] id[i]),
    ensures
        tags_of_words(words(seq![' ', '🆔', ' '] + id)) == id_tags(id),
{
    let a = seq![' ', '🆔'];
    let b = seq![' '] + id;
    assert(seq![' ', '🆔', ' '] + id =~= a + b);
    lemma_words_concat(a, b);
    assert(!a.contains('#')) by {
        if a.contains('#') {
            let k = choose|k: int| 0 <= k < 2 && a[k] == '#';
        }
    }
    lemma_no_hash_no_tags(a);
    lemma_one_word(id);
    lemma_tags_one(id);
    lemma_tags_concat(words(a), words(b));
    assert(tags_of_words(words(a + b)) =~= id_tags(id));
}

/// The tags of capture's text are the ones capture adds.
proof fn lemma_capture_text_tags(
    core: Seq<char>,
    waiting: bool,
    project: Option<Seq<char>>,
    id: Seq<char>,
)
    requires
        !core.contains('#'),
        id.len() > 0,
        forall|i: int| 0 <= i < id.len() ==> !is_ws(#[trigger] id[i]),
    ensures
        tags_of(core + tag_suffix(core, waiting, project) + (seq![' ', '🆔', ' '] + id))
            == capture_tags(waiting, project) + id_tags(id),
{
    reveal_strlit("#waiting");
    reveal_strlit("#project/");
    lemma_tail_meta(core, waiting, project);
    let (wt, pj) = tag_parts(core, waiting, project);
    let idp = seq![' ', '🆔', ' '] + id;
    let c = core + tag_suffix(core, waiting, project) + idp;
    assert(c =~= core + (wt + (pj + idp)));
    assert((wt + (pj + idp))[0] == ' ') by {
        if wt.len() > 0 {
            assert((wt + (pj + idp))[0] == wt[0]);
        } else if pj.len() > 0 {
            assert((wt + (pj + idp))[0] == pj[0]);
        } else {
            assert((wt + (pj + idp))[0] == idp[0]);
        }
    }
    assert((pj + idp)[0] == ' ') by {
        if pj.len() > 0 {
            assert((pj + idp)[0] == pj[0]);
        } else {
            assert((pj + idp)[0] == idp[0]);
        }
    }
    lemma_words_concat(core, wt + (pj + idp));
    lemma_words_concat(wt, pj + idp);
    lemma_words_concat(pj, idp);
    lemma_tags_concat(words(core), words(wt) + (words(pj) + words(idp)));
    lemma_tags_concat(words(wt), words(pj) + words(idp));
    lemma_tags_concat(words(pj), words(idp));
    lemma_no_hash_no_tags(core);
    lemma_id_tags(id);
    let tw: Seq<Seq<char>> = if waiting {
        seq!["#waiting"@]
    } else {
        Seq::<Seq<char>>::empty()
    };
    let tp: Seq<Seq<char>> = match project {
        Some(q) => seq!["#project/"@ + slug_spec(q)],
        None => Seq::<Seq<char>>::empty(),
    };
    assert(tags_of_words(words(wt)) == tw) by {
        if waiting {
            lemma_one_tag("#waiting"@);
        } else {
            assert(words(wt) =~= Seq::<Seq<char>>::empty());
        }
    }
    assert(tags_of_words(words(pj)) == tp) by {
        if let Some(q) = project {
            let w = "#project/"@ + slug_spec(q);
            let sl = slug_spec(q);
            lemma_slug_chars(q);
            assert forall|i: int| 0 <= i < w.len() implies !is_ws(#[trigger] w[i]) by {
                if i >= 9 {
                    assert(w[i] == sl[i - 9]);
                    assert(slug_ok()(sl[i - 9]));
                }
            }
            assert(!is_tag_punct(w.last())) by {
                if sl.len() > 0 {
                    assert(w.last() == sl[sl.len() - 1]);
                    assert(slug_ok()(sl[sl.len() - 1]));
                }
            }
            lemma_one_tag(w);
        } else {
            assert(words(pj) =~= Seq::<Seq<char>>::empty());
        }
    }
    assert(tags_of(c) =~= Seq::<Seq<char>>::empty() + (tw + (tp + id_tags(id))));
    assert(capture_tags(waiting, project) =~= tw + tp);
    assert(tw + tp + id_tags(id) =~= Seq::<Seq<char>>::empty() + (tw + (tp + id_tags(id))));
}

/// The text of a two-character sequence holds just its two characters.
proof fn lemma_pair_contains(a: char, b: char, e: char)
    ensures
        seq![a, b].contains(e) <==> e == a || e == b,
{
    if e == a {
        assert(seq![a, b][0] == e);
    }
    if e == b {
        assert(seq![a, b][1] == e);
    }
}

/// The priority of capture's text is the one capture writes.
proof fn lemma_capture_text_priority(
    lead: Seq<char>,
    priority: Option<Priority>,
    rest: Seq<char>,
)
    requires
        all_chars(lead, no_hash_prio()),
        all_chars(rest, not_prio()),
    ensures
        priority_of(lead + priority_part(priority) + rest) == priority,
{
    let pp = priority_part(priority);
    let c = lead + pp + rest;
    assert forall|e: char| is_priority_emoji(e) implies (c.contains(e) <==> pp.contains(e)) by {
        lemma_all_lacks(lead, no_hash_prio(), e);
        lemma_all_lacks(rest, not_prio(), e);
        lemma_contains_concat(lead, pp, e);
        lemma_contains_concat(lead + pp, rest, e);
    }
    match priority {
        Some(p) => {
            lemma_pair_contains(' ', crate::task::priority_emoji(p), '🔺');
            lemma_pair_contains(' ', crate::task::priority_emoji(p), '⏫');
            lemma_pair_contains(' ', crate::task::priority_emoji(p), '🔼');
            lemma_pair_contains(' ', crate::task::priority_emoji(p), '🔽');
            lemma_pair_contains(' ', crate::task::priority_emoji(p), '⏬');
        },
        None => {
            assert(!pp.contains('🔺'));
            assert(!pp.contains('⏫'));
            assert(!pp.contains('🔼'));
            assert(!pp.contains('🔽'));
            assert(!pp.contains('⏬'));
        },
    }
    assert(is_priority_emoji('🔺') && is_priority_emoji('⏫') && is_priority_emoji('🔼')
        && is_priority_emoji('🔽') && is_priority_emoji('⏬'));
}

/// The person read from capture's text: the one named in its
/// `Waiting on <person>: ` opening, and no other.
proof fn lemma_capture_waiting_name(
    text: Seq<char>,
    person: Option<Seq<char>>,
    waiting: bool,
    mid: Seq<char>,
)
    requires
        all_chars(text, no_hash_prio()),
        person matches Some(p) ==> meta_free(p) && p.len() > 0 && trim(p) == p,
        (waiting && person is Some) || waiting_name(text) is None,
        (waiting && person is Some) || !mid.contains(':') || waiting_name(
            text + seq![' ', '#', ':'],
        ) is None,
        opens_with_mark(mid),
    ensures
        waiting_name(waiting_lead(text, person, waiting) + mid) == (if waiting {
            person
        } else {
            None
        }),
{
    reveal_strlit("Waiting on ");
    reveal_strlit(": ");
    reveal_strlit("waiting");
    reveal_strlit("on");
    let c = waiting_lead(text, person, waiting) + mid;
    if waiting && person is Some {
        let p = person.unwrap();
        let tail = ": "@ + (text + mid);
        assert(c =~= "Waiting on "@ + (p + tail));
        assert(ci_prefix(c, "waiting"@)) by {
            assert forall|i: int| 0 <= i < 7 implies ci_char(#[trigger] c[i], "waiting"@[i]) by {
                assert(c[i] == "Waiting on "@[i]);
            }
        }
        assert(c[7] == ' ');
        let rest = c.skip(8);
        assert(rest[0] == 'o' && rest[1] == 'n' && rest[2] == ' ');
        assert(ci_prefix(rest, "on"@)) by {
            assert forall|i: int| 0 <= i < 2 implies ci_char(#[trigger] rest[i], "on"@[i]) by {}
        }
        assert(waiting_start(c) == 11);
        assert(c.skip(11) =~= p + tail);
        lemma_all_lacks(p, not_meta(), ':');
        lemma_find_char_concat(p, tail, ':');
        lemma_find_char_at(tail, ':', 0);
        assert(c.skip(11).take(p.len() as int) =~= p);
    } else {
        assert(c == text + mid);
        lemma_waiting_name_extend(text, mid);
    }
}

/// A text part that opens with a space and then a `#` or a character
/// beyond ASCII, as each part that capture writes after its text does.
pub open spec fn opens_with_mark(s: Seq<char>) -> bool {
    s.len() >= 2 && s[0] == ' ' && (s[1] == '#' || s[1] as u32 >= 128)
}

pub open spec fn mark_or_empty(s: Seq<char>) -> bool {
    s.len() == 0 || opens_with_mark(s)
}

proof fn lemma_mark_concat(a: Seq<char>, b: Seq<char>)
    requires
        mark_or_empty(a),
        mark_or_empty(b),
    ensures
        mark_or_empty(a + b),
        opens_with_mark(b) ==> opens_with_mark(a + b),
{
    if a.len() == 0 {
        assert(a + b =~= b);
    } else {
        assert((a + b)[0] == a[0] && (a + b)[1] == a[1]);
    }
}

/// Adding a part that opens with a space and a mark, and holds no `:`,
/// names no person that the text did not name.
proof fn lemma_waiting_name_extend(text: Seq<char>, mid: Seq<char>)
    requires
        waiting_name(text) is None,
        opens_with_mark(mid),
        !mid.contains(':') || waiting_name(text + seq![' ', '#', ':']) is None,
    ensures
        waiting_name(text + mid) is None,
{
    let c = text + mid;
    let d = text + seq![' ', '#', ':'];
    let n: int = text.len() as int;
    lemma_mark_start(text, mid);
    lemma_mark_start(text, seq![' ', '#', ':']);
    let s = waiting_start(c);
    if s != 0 {
        assert(waiting_start(d) == s);
        if n < s {
            assert(c.skip(s) =~= mid.skip(1));
            if mid.contains(':') {
                assert(d.skip(s) =~= seq!['#', ':']);
                lemma_find_char_at(d.skip(s), ':', 1);
                assert(false);
            }
            assert(!mid.skip(1).contains(':')) by {
                if mid.skip(1).contains(':') {
                    let k = choose|k: int| 0 <= k < mid.skip(1).len() && mid.skip(1)[k] == ':';
                    assert(mid[k + 1] == ':');
                }
            }
            lemma_find_char(c.skip(s), ':');
        } else {
            assert(waiting_start(text) == s);
            let ts = text.skip(s);
            assert(c.skip(s) =~= ts + mid);
            assert(d.skip(s) =~= ts + seq![' ', '#', ':']);
            if ts.contains(':') {
                lemma_find_char(ts, ':');
                lemma_find_char_prefix(ts, mid, ':');
            } else {
                lemma_find_char_concat(ts, mid, ':');
                lemma_find_char(mid, ':');
                if mid.contains(':') {
                    lemma_find_char_concat(ts, seq![' ', '#', ':'], ':');
                    lemma_find_char_at(seq![' ', '#', ':'], ':', 2);
                    assert(false);
                }
            }
        }
    }
}

/// Where a `waiting on `/`waiting for ` opening ends does not depend on
/// what follows the text after a space, so long as a mark comes next: it
/// is where it ends in the text with one space added, and it ends in the
/// text itself when it ends within it.
proof fn lemma_mark_start(text: Seq<char>, m: Seq<char>)
    requires
        opens_with_mark(m),
    ensures
        waiting_start(text + m) == waiting_start(text + seq![' ']),
        waiting_start(text + seq![' ']) <= text.len() + 1,
        waiting_start(text + seq![' ']) <= text.len() ==> waiting_start(text) == waiting_start(
            text + seq![' '],
        ),
{
    reveal_strlit("waiting");
    reveal_strlit("on");
    reveal_strlit("for");
    let c = text + m;
    let e = text + seq![' '];
    let n: int = text.len() as int;
    assert forall|i: int| 0 <= i <= n implies #[trigger] c[i] == e[i] by {}
    assert forall|i: int| 0 <= i < n implies #[trigger] text[i] == e[i] by {}
    // The opening's letters and its first space sit at 0..=7, then `on `
    // or `for ` at 8..; the mark after the added space matches none.
    let sc = waiting_start(c);
    if sc != 0 {
        assert(c[7] == ' ');
        assert forall|i: int| 0 <= i < 7 implies #[trigger] c[i] != ' ' && c[i] != '#' && (
        c[i] as u32) < 128 by {
            assert(ci_char(c[i], "waiting"@[i]));
        }
        let r = c.skip(8);
        if sc == 11 {
            assert(ci_char(r[0], 'o') && ci_char(r[1], 'n'));
            assert(c[8] == r[0] && c[9] == r[1] && c[10] == r[2]);
        } else {
            assert(ci_char(r[0], 'f') && ci_char(r[1], 'o') && ci_char(r[2], 'r'));
            assert(c[8] == r[0] && c[9] == r[1] && c[10] == r[2] && c[11] == r[3]);
        }
        assert(c[n] == ' ');
        assert(c[n + 1] == m[1]);
        assert(sc <= n + 1);
    }
    lemma_start_len(e);
    lemma_start_len(text);
    lemma_start_same(c, e, n + 1);
    if waiting_start(e) <= n {
        lemma_start_same(e, text, n);
    }
}

/// An opening never ends past the text.
proof fn lemma_start_len(x: Seq<char>)
    ensures
        waiting_start(x) <= x.len(),
{
}

/// Two texts that agree on their first `k` characters open the same way,
/// when both are at least `k` long and neither opening ends past `k`.
proof fn lemma_start_same(a: Seq<char>, b: Seq<char>, k: int)
    requires
        k <= a.len(),
        k <= b.len(),
        forall|i: int| 0 <= i < k ==> #[trigger] a[i] == b[i],
        waiting_start(a) <= k,
        waiting_start(b) <= k,
    ensures
        waiting_start(a) == waiting_start(b),
{
    if waiting_start(a) != 0 {
        lemma_start_agree(a, b, k);
    } else if waiting_start(b) != 0 {
        lemma_start_agree(b, a, k);
    }
}

proof fn lemma_start_agree(a: Seq<char>, b: Seq<char>, k: int)
    requires
        k <= a.len(),
        k <= b.len(),
        forall|i: int| 0 <= i < k ==> #[trigger] a[i] == b[i],
        waiting_start(a) != 0,
        waiting_start(a) <= k,
    ensures
        waiting_start(b) == waiting_start(a),
{
    reveal_strlit("waiting");
    reveal_strlit("on");
    reveal_strlit("for");
    let s = waiting_start(a);
    assert(k >= 11);
    assert(ci_prefix(b, "waiting"@)) by {
        assert forall|i: int| 0 <= i < 7 implies ci_char(#[trigger] b[i], "waiting"@[i]) by {
            assert(a[i] == b[i]);
        }
    }
    assert(b[7] == a[7]);
    let ra = a.skip(8);
    let rb = b.skip(8);
    assert(ra[0] == rb[0] && ra[1] == rb[1] && ra[2] == rb[2]) by {
        assert(a[8] == b[8] && a[9] == b[9] && a[10] == b[10]);
    }
    assert(ci_prefix(ra, "on"@) == ci_prefix(rb, "on"@));
    if s == 12 {
        assert(ra[3] == rb[3]) by {
            assert(a[11] == b[11]);
        }
        assert(ci_prefix(ra, "for"@) == ci_prefix(rb, "for"@));
    }
}

/// The first `:` of a text is the first of any longer text it begins.
proof fn lemma_find_char_prefix(a: Seq<char>, b: Seq<char>, e: char)
    requires
        a.contains(e),
    ensures
        find_char(a + b, e) == find_char(a, e),
    decreases a.len(),
{
    if a[0] != e {
        assert(a.drop_first().contains(e)) by {
            let k = choose|k: int| 0 <= k < a.len() && a[k] == e;
            assert(a.drop_first()[k - 1] == e);
        }
        lemma_find_char_prefix(a.drop_first(), b, e);
        assert((a + b).drop_first() =~= a.drop_first() + b);
    }
}

/// What the tags that capture writes say: waiting exactly when asked, no
/// `#waiting/<person>` tag, and the project slug with `-` read as a space.
/// The first tag with a prefix in two runs of tags: the first run's, if it
/// has one, else the second's.
proof fn lemma_first_concat(a: Seq<Seq<char>>, b: Seq<Seq<char>>, p: Seq<char>)
    ensures
        first_with_prefix(a + b, p) == (match first_with_prefix(a, p) {
            Some(x) => Some(x),
            None => first_with_prefix(b, p),
        }),
    decreases a.len(),
{
    if a.len() == 0 {
        assert(a + b =~= b);
    } else {
        assert((a + b)[0] == a[0]);
        assert((a + b).drop_first() =~= a.drop_first() + b);
        lemma_first_concat(a.drop_first(), b, p);
    }
}

/// What the tags of capture's line say, with the ID's own tag after
/// capture's when the ID is a tag word that is no waiting or project tag.
proof fn lemma_capture_tags_read(waiting: bool, project: Option<Seq<char>>, id: Seq<char>)
    requires
        !(is_tag_word(id) && meta_tag(tag_of_word(id))),
    ensures
        ({
            let tags = capture_tags(waiting, project) + id_tags(id);
            &&& first_with_prefix(tags, "#waiting/"@) is None
            &&& project_of(tags) == (match project {
                Some(q) => Some(replace_char(slug_spec(q), '-', ' ')),
                None => None,
            })
            &&& (exists|i: int|
                0 <= i < tags.len() && (#[trigger] tags[i] == "#waiting"@ || starts_with(
                    tags[i],
                    "#waiting/"@,
                ))) == waiting
        }),
{
    let ct = capture_tags(waiting, project);
    let ex = id_tags(id);
    let tags = ct + ex;
    lemma_capture_tags_base(waiting, project);
    lemma_first_concat(ct, ex, "#waiting/"@);
    lemma_first_concat(ct, ex, "#project/"@);
    reveal_with_fuel(first_with_prefix, 2);
    if is_tag_word(id) {
        let w = tag_of_word(id);
        assert(ex == seq![w]);
        assert(ex.drop_first() =~= Seq::<Seq<char>>::empty());
        assert(ex[0] == w);
    } else {
        assert(ex =~= Seq::<Seq<char>>::empty());
    }
    if exists|i: int| 0 <= i < tags.len() && (#[trigger] tags[i] == "#waiting"@ || starts_with(
        tags[i],
        "#waiting/"@,
    )) {
        let i = choose|i: int| 0 <= i < tags.len() && (#[trigger] tags[i] == "#waiting"@
            || starts_with(tags[i], "#waiting/"@));
        if i >= ct.len() {
            assert(tags[i] == ex[i - ct.len()]);
            assert(false);
        } else {
            assert(tags[i] == ct[i]);
        }
    } else if waiting {
        let i = choose|i: int| 0 <= i < ct.len() && (#[trigger] ct[i] == "#waiting"@
            || starts_with(ct[i], "#waiting/"@));
        assert(tags[i] == ct[i]);
    }
}

proof fn lemma_capture_tags_base(waiting: bool, project: Option<Seq<char>>)
    ensures
        ({
            let tags = capture_tags(waiting, project);
            &&& first_with_prefix(tags, "#waiting/"@) is None
            &&& project_of(tags) == (match project {
                Some(q) => Some(replace_char(slug_spec(q), '-', ' ')),
                None => None,
            })
            &&& (exists|i: int|
                0 <= i < tags.len() && (#[trigger] tags[i] == "#waiting"@ || starts_with(
                    tags[i],
                    "#waiting/"@,
                ))) == waiting
        }),
{
    reveal_strlit("#waiting");
    reveal_strlit("#waiting/");
    reveal_strlit("#project/");
    reveal_with_fuel(first_with_prefix, 3);
    let tags = capture_tags(waiting, project);
    let hw = "#waiting"@;
    assert(!starts_with(hw, "#waiting/"@));
    assert(!starts_with(hw, "#project/"@));
    if let Some(q) = project {
        let w = "#project/"@ + slug_spec(q);
        assert(w[1] == 'p');
        assert(w != hw) by {
            if w == hw {
                assert(w[1] == hw[1]);
            }
        }
        assert(!starts_with(w, "#waiting/"@)) by {
            if starts_with(w, "#waiting/"@) {
                assert(w.take(9)[1] == w[1]);
            }
        }
        assert(w.take(9) =~= "#project/"@);
        assert(starts_with(w, "#project/"@));
        assert(w.skip(9) =~= slug_spec(q));
        if waiting {
            assert(tags =~= seq![hw, w]);
            assert(tags.drop_first() =~= seq![w]);
            assert(tags.drop_first().drop_first() =~= Seq::<Seq<char>>::empty());
            assert(tags[0] == hw);
        } else {
            assert(tags =~= seq![w]);
            assert(tags.drop_first() =~= Seq::<Seq<char>>::empty());
            assert forall|i: int| 0 <= i < tags.len() implies !(#[trigger] tags[i] == hw
                || starts_with(tags[i], "#waiting/"@)) by {
                assert(tags[i] == w);
            }
        }
    } else {
        if waiting {
            assert(tags =~= seq![hw]);
            assert(tags.drop_first() =~= Seq::<Seq<char>>::empty());
            assert(tags[0] == hw);
        } else {
            assert(tags =~= Seq::<Seq<char>>::empty());
        }
    }
}

/// Text free of `#`, `:` and priority emojis has no `:` or priority emoji.
proof fn lemma_meta_free_no_colon_prio(s: Seq<char>)
    requires
        meta_free(s),
    ensures
        all_chars(s, no_colon_prio()),
{
    assert forall|i: int| 0 <= i < s.len() implies no_colon_prio()(#[trigger] s[i]) by {
        assert(not_meta()(s[i]));
    }
}

/// The priority and the person read from a text that opens with
/// capture's lead and priority and goes on with parts free of `:` and
/// priority emojis.
proof fn lemma_pieces_meta(
    text: Seq<char>,
    person: Option<Seq<char>>,
    waiting: bool,
    priority: Option<Priority>,
    rest: Seq<char>,
)
    requires
        all_chars(text, no_hash_prio()),
        person matches Some(p) ==> meta_free(p) && p.len() > 0 && trim(p) == p,
        (waiting && person is Some) || waiting_name(text) is None,
        all_chars(rest, not_prio()),
        (waiting && person is Some) || !rest.contains(':') || waiting_name(
            text + seq![' ', '#', ':'],
        ) is None,
        opens_with_mark(priority_part(priority) + rest),
    ensures
        ({
            let c = waiting_lead(text, person, waiting) + priority_part(priority) + rest;
            &&& priority_of(c) == priority
            &&& waiting_name(c) == (if waiting {
                person
            } else {
                None
            })
        }),
{
    lemma_lead_meta(text, person, waiting);
    let lead = waiting_lead(text, person, waiting);
    let pp = priority_part(priority);
    lemma_capture_text_priority(lead, priority, rest);
    let mid = pp + rest;
    assert(!rest.contains(':') ==> !mid.contains(':')) by {
        assert(!pp.contains(':')) by {
            if pp.contains(':') {
                let i = choose|i: int| 0 <= i < pp.len() && pp[i] == ':';
            }
        }
        lemma_contains_concat(pp, rest, ':');
    }
    assert(lead + pp + rest =~= lead + mid);
    lemma_capture_waiting_name(text, person, waiting, mid);
}

/// What capture writes after its text and priority holds no `:` or
/// priority emoji.
proof fn lemma_capture_rest(
    text: Seq<char>,
    due: Option<Date>,
    scheduled: Option<Date>,
    start: Option<Date>,
    priority: Option<Priority>,
    person: Option<Seq<char>>,
    project: Option<Seq<char>>,
    waiting: bool,
    id: Seq<char>,
) -> (rest: Seq<char>)
    requires
        all_chars(text, no_hash_prio()),
        person matches Some(p) ==> meta_free(p),
        all_chars(id, not_prio()),
        due matches Some(x) ==> x.wf(),
        scheduled matches Some(x) ==> x.wf(),
        start matches Some(x) ==> x.wf(),
    ensures
        capture_text(text, due, scheduled, start, priority, person, project, waiting, id)
            == waiting_lead(text, person, waiting) + priority_part(priority) + rest,
        all_chars(rest, not_prio()),
        !id.contains(':') ==> !rest.contains(':'),
        opens_with_mark(priority_part(priority) + rest),
{
    let core = capture_core(text, due, scheduled, start, priority, person, waiting);
    lemma_core_meta(text, due, scheduled, start, priority, person, waiting);
    lemma_tail_meta(core, waiting, project);
    lemma_id_part(id);
    let lead = waiting_lead(text, person, waiting);
    let pp = priority_part(priority);
    let dd = date_part('🛫', start) + date_part('⏳', scheduled) + date_part('📅', due);
    let wt = tag_parts(core, waiting, project).0;
    let pj = tag_parts(core, waiting, project).1;
    let idp = seq![' ', '🆔', ' '] + id;
    let rest = dd + wt + pj + idp;
    lemma_rest_chars(dd, wt, pj, id);
    assert(tag_suffix(core, waiting, project) == wt + pj);
    assert(capture_text(text, due, scheduled, start, priority, person, project, waiting, id)
        == core + (wt + pj) + idp);
    lemma_regroup(lead, pp, dd, wt, pj, idp);
    reveal_strlit("#waiting");
    reveal_strlit("#project/");
    let sp = date_part('🛫', start);
    let schp = date_part('⏳', scheduled);
    let dp = date_part('📅', due);
    assert(mark_or_empty(pp));
    assert(mark_or_empty(sp) && mark_or_empty(schp) && mark_or_empty(dp));
    assert(mark_or_empty(wt)) by {
        if waiting {
            assert(wt[1] == '#');
        }
    }
    assert(mark_or_empty(pj)) by {
        if project is Some {
            assert(pj[1] == '#');
        }
    }
    assert(opens_with_mark(idp));
    lemma_mark_concat(sp, schp);
    lemma_mark_concat(sp + schp, dp);
    assert(dd == sp + schp + dp);
    lemma_mark_concat(dd, wt);
    lemma_mark_concat(dd + wt, pj);
    lemma_mark_concat(dd + wt + pj, idp);
    lemma_mark_concat(pp, rest);
    rest
}

/// The parts after the text and priority: no priority emoji, and no `:`
/// unless the ID has one.
proof fn lemma_rest_chars(dd: Seq<char>, wt: Seq<char>, pj: Seq<char>, id: Seq<char>)
    requires
        meta_free(dd),
        all_chars(wt, no_colon_prio()),
        all_chars(pj, no_colon_prio()),
        all_chars(id, not_prio()),
    ensures
        all_chars(dd + wt + pj + (seq![' ', '🆔', ' '] + id), not_prio()),
        !id.contains(':') ==> !(dd + wt + pj + (seq![' ', '🆔', ' '] + id)).contains(':'),
{
    let idp = seq![' ', '🆔', ' '] + id;
    let front = dd + wt + pj;
    lemma_id_part(id);
    lemma_meta_free_no_colon_prio(dd);
    lemma_all_concat(dd, wt, no_colon_prio());
    lemma_all_concat(dd + wt, pj, no_colon_prio());
    assert(all_chars(front, not_prio())) by {
        assert forall|i: int| 0 <= i < front.len() implies not_prio()(#[trigger] front[i]) by {
            assert(no_colon_prio()(front[i]));
        }
    }
    lemma_all_concat(front, idp, not_prio());
    lemma_all_lacks(front, no_colon_prio(), ':');
    lemma_contains_concat(front, idp, ':');
}

proof fn lemma_regroup(
    a: Seq<char>,
    b: Seq<char>,
    c: Seq<char>,
    d: Seq<char>,
    e: Seq<char>,
    f: Seq<char>,
)
    ensures
        (a + b + c) + (d + e) + f == a + b + (c + d + e + f),
{
    assert((a + b + c) + (d + e) + f =~= a + b + (c + d + e + f));
}

/// The metadata read from capture's text.
proof fn lemma_capture_text_meta(
    text: Seq<char>,
    due: Option<Date>,
    scheduled: Option<Date>,
    start: Option<Date>,
    priority: Option<Priority>,
    person: Option<Seq<char>>,
    project: Option<Seq<char>>,
    waiting: bool,
    id: Seq<char>,
)
    requires
        all_chars(text, no_hash_prio()),
        person matches Some(p) ==> meta_free(p) && p.len() > 0 && trim(p) == p,
        (waiting && person is Some) || waiting_name(text) is None,
        all_chars(id, not_prio()),
        id.len() > 0,
        forall|i: int| 0 <= i < id.len() ==> !is_ws(#[trigger] id[i]),
        !(is_tag_word(id) && meta_tag(tag_of_word(id))),
        id_colon_safe(text, person, waiting, id),
        due matches Some(x) ==> x.wf(),
        scheduled matches Some(x) ==> x.wf(),
        start matches Some(x) ==> x.wf(),
    ensures
        ({
            let c = capture_text(text, due, scheduled, start, priority, person, project, waiting, id);
            let tags = capture_tags(waiting, project) + id_tags(id);
            &&& tags_of(c) == tags
            &&& priority_of(c) == priority
            &&& person_of(c, tags) == (if waiting {
                person
            } else {
                None
            })
        }),
{
    let c = capture_text(text, due, scheduled, start, priority, person, project, waiting, id);
    let core = capture_core(text, due, scheduled, start, priority, person, waiting);
    lemma_core_meta(text, due, scheduled, start, priority, person, waiting);
    lemma_capture_text_tags(core, waiting, project, id);
    let rest = lemma_capture_rest(text, due, scheduled, start, priority, person, project, waiting, id);
    lemma_pieces_meta(text, person, waiting, priority, rest);
    lemma_capture_tags_read(waiting, project, id);
}

/// The line that capture writes reads back with the metadata capture was
/// given: its tags are `#waiting` for a waiting task, then
/// `#project/<slug>` for a project, then the ID itself if it is a tag
/// word; so the task is waiting exactly when captured as waiting and its
/// project is the slug with `-` read as a space; its priority is the given
/// one; and its person is the given one for a waiting task and none
/// otherwise. This holds, beyond what the read-back of the ID and the
/// dates needs, when the text holds no `#` or priority emoji and, unless
/// capture itself writes the `Waiting on <person>: ` opening, names no
/// person waited on; when the person holds no `#`, `:` or priority emoji,
/// is non-empty and has no whitespace at either end; and when the ID holds
/// no priority emoji, is no waiting or project tag, and holds a `:` only
/// where that `:` would not end a `waiting on ` opening of the text.
pub proof fn law_capture_metadata_reads_back(
    text: Seq<char>,
    due: Option<Date>,
    scheduled: Option<Date>,
    start: Option<Date>,
    priority: Option<Priority>,
    person: Option<Seq<char>>,
    project: Option<Seq<char>>,
    waiting: bool,
    id: Seq<char>,
)
    requires
        free_of_marks(text),
        all_chars(text, no_hash_prio()),
        (waiting && person is Some) || waiting_name(text) is None,
        person matches Some(p) ==> free_of_marks(p) && meta_free(p) && p.len() > 0 && trim(p) == p,
        free_of_marks(id),
        all_chars(id, not_prio()),
        id.len() > 0,
        forall|i: int| 0 <= i < id.len() ==> !is_ws(#[trigger] id[i]),
        !(is_tag_word(id) && meta_tag(tag_of_word(id))),
        id_colon_safe(text, person, waiting, id),
        due matches Some(x) ==> x.wf() && 0 <= x.year <= 9999,
        scheduled matches Some(x) ==> x.wf() && 0 <= x.year <= 9999,
        start matches Some(x) ==> x.wf() && 0 <= x.year <= 9999,
    ensures
        ({
            let line = task_line_spec(
                text,
                due,
                scheduled,
                start,
                priority,
                person,
                project,
                waiting,
                Some(id),
            );
            let t = parse_task_spec(seq![], 1, line).unwrap();
            &&& parse_task_spec(seq![], 1, line) is Some
            &&& t.tags == capture_tags(waiting, project) + id_tags(id)
            &&& t.is_waiting() == waiting
            &&& t.priority == priority
            &&& t.project == (match project {
                Some(q) => Some(replace_char(slug_spec(q), '-', ' ')),
                None => None,
            })
            &&& t.person == (if waiting {
                person
            } else {
                None
            })
        }),
{
    law_capture_line_reads_back(text, due, scheduled, start, priority, person, project, waiting, id);
    let line = task_line_spec(text, due, scheduled, start, priority, person, project, waiting, Some(id));
    lemma_parse_fields(line);
    lemma_capture_text_meta(text, due, scheduled, start, priority, person, project, waiting, id);
    lemma_capture_tags_read(waiting, project, id);
}

} // verus!
