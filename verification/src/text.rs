//! Character-sequence helpers shared by the task and vault logic.
//!
//! Strings are handled as sequences of Unicode scalar values. Where the
//! Markdown format depends on UTF-8 byte offsets, `char_len` gives the width
//! of each character.
use vstd::prelude::*;

verus! {

/// Unicode `White_Space`, the set that `char::is_whitespace` and `\s` use.
pub open spec fn is_ws(c: char) -> bool {
    ||| ('\u{9}' <= c && c <= '\u{d}')
    ||| c == ' '
    ||| c == '\u{85}'
    ||| c == '\u{a0}'
    ||| c == '\u{1680}'
    ||| ('\u{2000}' <= c && c <= '\u{200a}')
    ||| c == '\u{2028}'
    ||| c == '\u{2029}'
    ||| c == '\u{202f}'
    ||| c == '\u{205f}'
    ||| c == '\u{3000}'
}

pub fn char_is_ws(c: char) -> (r: bool)
    ensures
        r == is_ws(c),
{
    ('\u{9}' <= c && c <= '\u{d}') || c == ' ' || c == '\u{85}' || c == '\u{a0}' || c == '\u{1680}'
        || ('\u{2000}' <= c && c <= '\u{200a}') || c == '\u{2028}' || c == '\u{2029}' || c
        == '\u{202f}' || c == '\u{205f}' || c == '\u{3000}'
}

/// Number of leading whitespace characters.
pub open spec fn lead_ws(s: Seq<char>) -> nat
    decreases s.len(),
{
    if s.len() > 0 && is_ws(s[0]) {
        1 + lead_ws(s.drop_first())
    } else {
        0
    }
}

/// Number of leading non-whitespace characters.
pub open spec fn lead_nonws(s: Seq<char>) -> nat
    decreases s.len(),
{
    if s.len() > 0 && !is_ws(s[0]) {
        1 + lead_nonws(s.drop_first())
    } else {
        0
    }
}

/// Number of trailing whitespace characters.
pub open spec fn trail_ws(s: Seq<char>) -> nat
    decreases s.len(),
{
    if s.len() > 0 && is_ws(s.last()) {
        1 + trail_ws(s.drop_last())
    } else {
        0
    }
}

pub open spec fn trim_start(s: Seq<char>) -> Seq<char> {
    s.skip(lead_ws(s) as int)
}

pub open spec fn trim_end(s: Seq<char>) -> Seq<char> {
    s.take(s.len() - trail_ws(s))
}

/// `str::trim`: both ends stripped of whitespace.
pub open spec fn trim(s: Seq<char>) -> Seq<char> {
    trim_end(trim_start(s))
}

pub proof fn lemma_lead_ws_bound(s: Seq<char>)
    ensures
        lead_ws(s) <= s.len(),
        forall|k: int| 0 <= k < lead_ws(s) ==> is_ws(#[trigger] s[k]),
        lead_ws(s) < s.len() ==> !is_ws(s[lead_ws(s) as int]),
    decreases s.len(),
{
    if s.len() > 0 && is_ws(s[0]) {
        lemma_lead_ws_bound(s.drop_first());
        assert forall|k: int| 0 <= k < lead_ws(s) implies is_ws(#[trigger] s[k]) by {
            if k > 0 {
                assert(s[k] == s.drop_first()[k - 1]);
            }
        }
        if lead_ws(s) < s.len() {
            assert(s[lead_ws(s) as int] == s.drop_first()[lead_ws(s) - 1]);
        }
    }
}

pub proof fn lemma_lead_nonws_bound(s: Seq<char>)
    ensures
        lead_nonws(s) <= s.len(),
        forall|k: int| 0 <= k < lead_nonws(s) ==> !is_ws(#[trigger] s[k]),
        lead_nonws(s) < s.len() ==> is_ws(s[lead_nonws(s) as int]),
    decreases s.len(),
{
    if s.len() > 0 && !is_ws(s[0]) {
        lemma_lead_nonws_bound(s.drop_first());
        assert forall|k: int| 0 <= k < lead_nonws(s) implies !is_ws(#[trigger] s[k]) by {
            if k > 0 {
                assert(s[k] == s.drop_first()[k - 1]);
            }
        }
        if lead_nonws(s) < s.len() {
            assert(s[lead_nonws(s) as int] == s.drop_first()[lead_nonws(s) - 1]);
        }
    }
}

pub proof fn lemma_trail_ws_bound(s: Seq<char>)
    ensures
        trail_ws(s) <= s.len(),
        forall|k: int| s.len() - trail_ws(s) <= k < s.len() ==> is_ws(#[trigger] s[k]),
        trail_ws(s) < s.len() ==> !is_ws(s[s.len() - trail_ws(s) - 1]),
    decreases s.len(),
{
    if s.len() > 0 && is_ws(s.last()) {
        lemma_trail_ws_bound(s.drop_last());
        assert forall|k: int| s.len() - trail_ws(s) <= k < s.len() implies is_ws(
            #[trigger] s[k],
        ) by {
            if k < s.len() - 1 {
                assert(s[k] == s.drop_last()[k]);
            }
        }
        if trail_ws(s) < s.len() {
            assert(s[s.len() - trail_ws(s) - 1] == s.drop_last()[s.len() - trail_ws(s) - 1]);
        }
    }
}

/// A whitespace run from `i` up to `j` that stops at a non-whitespace
/// character (or the end) is exactly the leading whitespace of `s.skip(i)`.
pub proof fn lemma_lead_ws_run(s: Seq<char>, i: int, j: int)
    requires
        0 <= i <= j <= s.len(),
        forall|k: int| i <= k < j ==> is_ws(#[trigger] s[k]),
        j == s.len() || !is_ws(s[j]),
    ensures
        lead_ws(s.skip(i)) == j - i,
    decreases j - i,
{
    if i < j {
        assert(s.skip(i).drop_first() =~= s.skip(i + 1));
        lemma_lead_ws_run(s, i + 1, j);
    }
}

pub proof fn lemma_lead_nonws_run(s: Seq<char>, i: int, j: int)
    requires
        0 <= i <= j <= s.len(),
        forall|k: int| i <= k < j ==> !is_ws(#[trigger] s[k]),
        j == s.len() || is_ws(s[j]),
    ensures
        lead_nonws(s.skip(i)) == j - i,
    decreases j - i,
{
    if i < j {
        assert(s.skip(i).drop_first() =~= s.skip(i + 1));
        lemma_lead_nonws_run(s, i + 1, j);
    }
}

pub proof fn lemma_trail_ws_run(s: Seq<char>, j: int, i: int)
    requires
        0 <= i <= j <= s.len(),
        forall|k: int| i <= k < j ==> is_ws(#[trigger] s[k]),
        i == 0 || !is_ws(s[i - 1]),
    ensures
        trail_ws(s.take(j)) == j - i,
    decreases j - i,
{
    if i < j {
        assert(s.take(j).drop_last() =~= s.take(j - 1));
        lemma_trail_ws_run(s, j - 1, i);
    }
}

/// `str::split_whitespace`: the maximal runs of non-whitespace characters.
pub open spec fn words(s: Seq<char>) -> Seq<Seq<char>>
    decreases s.len(),
{
    if s.len() == 0 {
        seq![]
    } else if is_ws(s[0]) {
        words(s.drop_first())
    } else {
        proof {
            lemma_lead_nonws_bound(s);
            assert(lead_nonws(s) >= 1) by {
                reveal_with_fuel(lead_nonws, 2);
            }
        }
        seq![s.take(lead_nonws(s) as int)] + words(s.skip(lead_nonws(s) as int))
    }
}

/// First position of `c` in `s`.
pub open spec fn find_char(s: Seq<char>, c: char) -> Option<int>
    decreases s.len(),
{
    if s.len() == 0 {
        None
    } else if s[0] == c {
        Some(0)
    } else {
        match find_char(s.drop_first(), c) {
            Some(i) => Some(i + 1),
            None => None,
        }
    }
}

pub proof fn lemma_find_char(s: Seq<char>, c: char)
    ensures
        find_char(s, c) is Some <==> s.contains(c),
        find_char(s, c) matches Some(i) ==> 0 <= i < s.len() && s[i] == c && forall|k: int|
            0 <= k < i ==> #[trigger] s[k] != c,
    decreases s.len(),
{
    if s.len() > 0 && s[0] != c {
        lemma_find_char(s.drop_first(), c);
        if s.contains(c) {
            let k = choose|k: int| 0 <= k < s.len() && s[k] == c;
            assert(s.drop_first()[k - 1] == c);
        }
        if s.drop_first().contains(c) {
            let k = choose|k: int| 0 <= k < s.drop_first().len() && s.drop_first()[k] == c;
            assert(s[k + 1] == c);
        }
        if let Some(i) = find_char(s, c) {
            assert forall|k: int| 0 <= k < i implies #[trigger] s[k] != c by {
                if k > 0 {
                    assert(s[k] == s.drop_first()[k - 1]);
                }
            }
        }
    }
}

/// Characterisation of the first position of a character.
pub proof fn lemma_find_char_at(s: Seq<char>, c: char, i: int)
    requires
        0 <= i <= s.len(),
        forall|k: int| 0 <= k < i ==> #[trigger] s[k] != c,
        i == s.len() || s[i] == c,
    ensures
        find_char(s, c) == (if i == s.len() {
            None::<int>
        } else {
            Some(i)
        }),
    decreases i,
{
    if i > 0 {
        assert forall|k: int| 0 <= k < i - 1 implies #[trigger] s.drop_first()[k] != c by {
            assert(s.drop_first()[k] == s[k + 1]);
        }
        lemma_find_char_at(s.drop_first(), c, i - 1);
    }
}

/// `pat` occurs in `s` starting at `i`.
pub open spec fn occurs_at(s: Seq<char>, pat: Seq<char>, i: int) -> bool {
    0 <= i && i + pat.len() <= s.len() && s.subrange(i, i + pat.len()) == pat
}

/// Leftmost occurrence of `pat` in `s` at or after `from`.
pub open spec fn find_sub_from(s: Seq<char>, pat: Seq<char>, from: int) -> Option<int>
    decreases s.len() + 1 - from,
{
    if from < 0 || from + pat.len() > s.len() {
        None
    } else if occurs_at(s, pat, from) {
        Some(from)
    } else {
        find_sub_from(s, pat, from + 1)
    }
}

/// `str::find` with a string pattern: the leftmost occurrence.
pub open spec fn find_sub(s: Seq<char>, pat: Seq<char>) -> Option<int> {
    find_sub_from(s, pat, 0)
}

pub proof fn lemma_find_sub_from(s: Seq<char>, pat: Seq<char>, from: int)
    requires
        0 <= from,
    ensures
        find_sub_from(s, pat, from) matches Some(i) ==> from <= i && occurs_at(s, pat, i) && forall|
            k: int,
        |
            from <= k < i ==> !occurs_at(s, pat, k),
        find_sub_from(s, pat, from) is None ==> forall|k: int|
            from <= k ==> !occurs_at(s, pat, k),
    decreases s.len() + 1 - from,
{
    if from + pat.len() <= s.len() && !occurs_at(s, pat, from) {
        lemma_find_sub_from(s, pat, from + 1);
    }
}

pub open spec fn starts_with(s: Seq<char>, p: Seq<char>) -> bool {
    p.len() <= s.len() && s.take(p.len() as int) == p
}

pub open spec fn ends_with(s: Seq<char>, p: Seq<char>) -> bool {
    p.len() <= s.len() && s.skip(s.len() - p.len()) == p
}

/// Every `from` replaced by `to`.
pub open spec fn replace_char(s: Seq<char>, from: char, to: char) -> Seq<char> {
    s.map_values(|c: char| if c == from { to } else { c })
}

/// Width of a character in UTF-8.
pub open spec fn char_len(c: char) -> nat {
    if (c as u32) < 0x80 {
        1
    } else if (c as u32) < 0x800 {
        2
    } else if (c as u32) < 0x10000 {
        3
    } else {
        4
    }
}

/// Number of characters that make up the first `n` bytes of `s`, if `n`
/// falls on a character boundary inside `s`.
pub open spec fn byte_prefix(s: Seq<char>, n: nat) -> Option<nat>
    decreases s.len(),
{
    if n == 0 {
        Some(0)
    } else if s.len() == 0 || char_len(s[0]) > n {
        None
    } else {
        match byte_prefix(s.drop_first(), (n - char_len(s[0])) as nat) {
            Some(k) => Some(k + 1),
            None => None,
        }
    }
}

pub proof fn lemma_byte_prefix_bound(s: Seq<char>, n: nat)
    ensures
        byte_prefix(s, n) matches Some(k) ==> k <= s.len() && k <= n,
    decreases s.len(),
{
    if n != 0 && s.len() != 0 && char_len(s[0]) <= n {
        lemma_byte_prefix_bound(s.drop_first(), (n - char_len(s[0])) as nat);
    }
}

/// One line of `str::lines`: the text up to the next `\n`, with one `\r`
/// removed from the end when the line ended in `\r\n`.
pub open spec fn line_body(s: Seq<char>, terminated: bool) -> Seq<char> {
    if terminated && s.len() > 0 && s.last() == '\r' {
        s.drop_last()
    } else {
        s
    }
}

/// `str::lines`.
pub open spec fn lines(s: Seq<char>) -> Seq<Seq<char>>
    decreases s.len(),
{
    if s.len() == 0 {
        seq![]
    } else {
        match find_char(s, '\n') {
            Some(i) => {
                proof {
                    lemma_find_char(s, '\n');
                }
                seq![line_body(s.take(i), true)] + lines(s.skip(i + 1))
            },
            None => seq![s],
        }
    }
}

/// The characters of each vector.
pub open spec fn views(v: Seq<Vec<char>>) -> Seq<Seq<char>> {
    v.map_values(|x: Vec<char>| x@)
}

/// Pieces joined with `sep` between them (`[String]::join`).
pub open spec fn join_with(ls: Seq<Seq<char>>, sep: char) -> Seq<char>
    decreases ls.len(),
{
    if ls.len() == 0 {
        seq![]
    } else if ls.len() == 1 {
        ls[0]
    } else {
        join_with(ls.drop_last(), sep) + seq![sep] + ls.last()
    }
}

/// Lines joined with `\n` between them.
pub open spec fn join_lines(ls: Seq<Seq<char>>) -> Seq<char> {
    join_with(ls, '\n')
}

/// Number of leading characters other than `sep`.
pub open spec fn lead_not(s: Seq<char>, sep: char) -> nat
    decreases s.len(),
{
    if s.len() > 0 && s[0] != sep {
        1 + lead_not(s.drop_first(), sep)
    } else {
        0
    }
}

pub proof fn lemma_lead_not_bound(s: Seq<char>, sep: char)
    ensures
        lead_not(s, sep) <= s.len(),
    decreases s.len(),
{
    if s.len() > 0 && s[0] != sep {
        lemma_lead_not_bound(s.drop_first(), sep);
    }
}

pub proof fn lemma_lead_not_run(s: Seq<char>, sep: char, i: int, j: int)
    requires
        0 <= i <= j <= s.len(),
        forall|k: int| i <= k < j ==> #[trigger] s[k] != sep,
        j == s.len() || s[j] == sep,
    ensures
        lead_not(s.skip(i), sep) == j - i,
    decreases j - i,
{
    if i < j {
        assert(s.skip(i).drop_first() =~= s.skip(i + 1));
        lemma_lead_not_run(s, sep, i + 1, j);
    }
}

/// `split(sep)` with the empty pieces left out.
pub open spec fn segments(s: Seq<char>, sep: char) -> Seq<Seq<char>>
    decreases s.len(),
{
    if s.len() == 0 {
        seq![]
    } else if s[0] == sep {
        segments(s.drop_first(), sep)
    } else {
        proof {
            lemma_lead_not_bound(s, sep);
            assert(lead_not(s, sep) >= 1) by {
                reveal_with_fuel(lead_not, 2);
            }
        }
        seq![s.take(lead_not(s, sep) as int)] + segments(s.skip(lead_not(s, sep) as int), sep)
    }
}

/// Text with `\n` appended when `add` holds.
pub open spec fn with_final_newline(s: Seq<char>, add: bool) -> Seq<char> {
    if add {
        s.push('\n')
    } else {
        s
    }
}

/// Leading whitespace of a concatenation that starts with whitespace only
/// and then a non-whitespace character.
pub proof fn lemma_lead_ws_concat(a: Seq<char>, b: Seq<char>)
    requires
        forall|i: int| 0 <= i < a.len() ==> is_ws(#[trigger] a[i]),
        b.len() == 0 || !is_ws(b[0]),
    ensures
        lead_ws(a + b) == a.len(),
{
    let s = a + b;
    assert forall|k: int| 0 <= k < a.len() implies is_ws(#[trigger] s[k]) by {
        assert(s[k] == a[k]);
    }
    if b.len() > 0 {
        assert(s[a.len() as int] == b[0]);
    }
    lemma_lead_ws_run(s, 0, a.len() as int);
    assert(s.skip(0) =~= s);
}

/// The first `c` of a concatenation whose first part has none.
pub proof fn lemma_find_char_concat(a: Seq<char>, b: Seq<char>, c: char)
    requires
        !a.contains(c),
    ensures
        find_char(a + b, c) == (match find_char(b, c) {
            Some(i) => Some(i + a.len()),
            None => None::<int>,
        }),
{
    lemma_find_char(b, c);
    let s = a + b;
    assert forall|k: int| 0 <= k < a.len() implies #[trigger] s[k] != c by {
        assert(s[k] == a[k]);
        if a[k] == c {
            assert(a.contains(c));
        }
    }
    match find_char(b, c) {
        Some(i) => {
            assert forall|k: int| 0 <= k < i + a.len() implies #[trigger] s[k] != c by {
                if k >= a.len() {
                    assert(s[k] == b[k - a.len()]);
                }
            }
            assert(s[i + a.len()] == b[i]);
            lemma_find_char_at(s, c, i + a.len());
        },
        None => {
            assert forall|k: int| 0 <= k < s.len() implies #[trigger] s[k] != c by {
                if k >= a.len() {
                    assert(s[k] == b[k - a.len()]);
                    if b[k - a.len()] == c {
                        assert(b.contains(c));
                    }
                }
            }
            lemma_find_char_at(s, c, s.len() as int);
        },
    }
}

/// The first `n` bytes of ASCII text are its first `n` characters.
pub proof fn lemma_byte_prefix_ascii(s: Seq<char>, n: nat)
    requires
        n <= s.len(),
        forall|i: int| 0 <= i < n ==> (#[trigger] s[i] as u32) < 0x80,
    ensures
        byte_prefix(s, n) == Some(n),
    decreases n,
{
    if n > 0 {
        assert((s[0] as u32) < 0x80);
        assert forall|i: int| 0 <= i < n - 1 implies (#[trigger] s.drop_first()[i] as u32) < 0x80 by {
            assert(s.drop_first()[i] == s[i + 1]);
        }
        lemma_byte_prefix_ascii(s.drop_first(), (n - 1) as nat);
    }
}

// ---------------------------------------------------------------------------
// Executable helpers
// ---------------------------------------------------------------------------
/// `String::push`: appends one character.
#[verifier::external_body]
pub(crate) fn push_char(s: &mut String, c: char)
    ensures
        final(s)@ == old(s)@.push(c),
{
    s.push(c);
}

/// The characters of a string slice, in order.
pub fn chars_of(s: &str) -> (v: Vec<char>)
    ensures
        v@ == s@,
{
    let mut v: Vec<char> = Vec::new();
    for c in it: s.chars()
        invariant
            v@ == it.seq().take(it.index() as int),
    {
        v.push(c);
    }
    v
}

/// A `String` holding the given characters.
pub fn string_of(v: &Vec<char>) -> (s: String)
    ensures
        s@ == v@,
{
    let mut s = String::new();
    let mut i: usize = 0;
    while i < v.len()
        invariant
            i <= v.len(),
            s@ == v@.take(i as int),
        decreases v.len() - i,
    {
        push_char(&mut s, v[i]);
        i += 1;
        assert(s@ =~= v@.take(i as int));
    }
    assert(v@.take(v.len() as int) =~= v@);
    s
}

/// Appends `src` to `dst`.
pub fn extend(dst: &mut Vec<char>, src: &Vec<char>)
    ensures
        final(dst)@ == old(dst)@ + src@,
{
    let mut i: usize = 0;
    while i < src.len()
        invariant
            i <= src.len(),
            dst@ == old(dst)@ + src@.take(i as int),
        decreases src.len() - i,
    {
        dst.push(src[i]);
        i += 1;
        assert(dst@ =~= old(dst)@ + src@.take(i as int));
    }
    assert(src@.take(src.len() as int) =~= src@);
}

/// Appends the characters of `src` to `dst`.
pub fn extend_str(dst: &mut Vec<char>, src: &str)
    ensures
        final(dst)@ == old(dst)@ + src@,
{
    let v = chars_of(src);
    extend(dst, &v);
}

/// The characters from `a` up to `b`.
pub fn slice(v: &Vec<char>, a: usize, b: usize) -> (r: Vec<char>)
    requires
        a <= b <= v.len(),
    ensures
        r@ == v@.subrange(a as int, b as int),
{
    let mut r: Vec<char> = Vec::new();
    let mut i = a;
    while i < b
        invariant
            a <= i <= b <= v.len(),
            r@ == v@.subrange(a as int, i as int),
        decreases b - i,
    {
        r.push(v[i]);
        i += 1;
        assert(r@ =~= v@.subrange(a as int, i as int));
    }
    r
}

/// End of the whitespace run that starts at `from`.
pub fn ws_run_end(v: &Vec<char>, from: usize) -> (j: usize)
    requires
        from <= v.len(),
    ensures
        from <= j <= v.len(),
        j - from == lead_ws(v@.skip(from as int)),
{
    let mut j = from;
    while j < v.len() && char_is_ws(v[j])
        invariant
            from <= j <= v.len(),
            forall|k: int| from <= k < j ==> is_ws(#[trigger] v@[k]),
        decreases v.len() - j,
    {
        j += 1;
    }
    proof {
        lemma_lead_ws_run(v@, from as int, j as int);
    }
    j
}

/// End of the non-whitespace run that starts at `from`.
pub fn nonws_run_end(v: &Vec<char>, from: usize) -> (j: usize)
    requires
        from <= v.len(),
    ensures
        from <= j <= v.len(),
        j - from == lead_nonws(v@.skip(from as int)),
{
    let mut j = from;
    while j < v.len() && !char_is_ws(v[j])
        invariant
            from <= j <= v.len(),
            forall|k: int| from <= k < j ==> !is_ws(#[trigger] v@[k]),
        decreases v.len() - j,
    {
        j += 1;
    }
    proof {
        lemma_lead_nonws_run(v@, from as int, j as int);
    }
    j
}

/// Start of the whitespace run that ends at `to`.
pub fn ws_run_start(v: &Vec<char>, to: usize) -> (i: usize)
    requires
        to <= v.len(),
    ensures
        i <= to,
        to - i == trail_ws(v@.take(to as int)),
{
    let mut i = to;
    while i > 0 && char_is_ws(v[i - 1])
        invariant
            i <= to <= v.len(),
            forall|k: int| i <= k < to ==> is_ws(#[trigger] v@[k]),
        decreases i,
    {
        i -= 1;
    }
    proof {
        lemma_trail_ws_run(v@, to as int, i as int);
    }
    i
}

/// `str::trim`.
pub fn trim_chars(v: &Vec<char>) -> (r: Vec<char>)
    ensures
        r@ == trim(v@),
{
    let a = ws_run_end(v, 0);
    let b = ws_run_start(v, v.len());
    proof {
        assert(v@.skip(0) =~= v@);
        assert(v@.take(v.len() as int) =~= v@);
        lemma_lead_ws_bound(v@);
        lemma_trail_ws_bound(v@);
    }
    if a >= b {
        proof {
            // everything is whitespace
            let t = trim_start(v@);
            assert forall|k: int| 0 <= k < t.len() implies is_ws(#[trigger] t[k]) by {
                assert(t[k] == v@[a + k]);
            }
            lemma_lead_ws_run(v@, 0, v.len() as int);
            assert(a == v.len());
            assert(t.len() == 0);
            lemma_trail_ws_run(t, 0, 0);
        }
        let r: Vec<char> = Vec::new();
        proof {
            assert(trim(v@) =~= r@);
        }
        r
    } else {
        let r = slice(v, a, b);
        proof {
            let t = trim_start(v@);
            assert(t =~= v@.subrange(a as int, v.len() as int));
            assert forall|k: int| b - a <= k < t.len() implies is_ws(#[trigger] t[k]) by {
                assert(t[k] == v@[a + k]);
            }
            assert(t[b - a - 1] == v@[b - 1]);
            lemma_trail_ws_run(t, t.len() as int, b - a);
            assert(t.take(t.len() as int) =~= t);
            assert(trim(v@) =~= r@);
        }
        r
    }
}

/// First position of `c` at or after `from`.
pub fn find_char_from(v: &Vec<char>, c: char, from: usize) -> (r: Option<usize>)
    requires
        from <= v.len(),
    ensures
        r == (match find_char(v@.skip(from as int), c) {
            Some(i) => Some((i + from) as usize),
            None => None::<usize>,
        }),
        r matches Some(i) ==> from <= i < v.len() && v@[i as int] == c,
{
    let mut i = from;
    while i < v.len()
        invariant
            from <= i <= v.len(),
            forall|k: int| from <= k < i ==> #[trigger] v@[k] != c,
        decreases v.len() - i,
    {
        if v[i] == c {
            proof {
                let s = v@.skip(from as int);
                assert forall|k: int| 0 <= k < i - from implies #[trigger] s[k] != c by {
                    assert(s[k] == v@[from + k]);
                }
                lemma_find_char_at(s, c, i - from);
            }
            return Some(i);
        }
        i += 1;
    }
    proof {
        let s = v@.skip(from as int);
        assert forall|k: int| 0 <= k < s.len() implies #[trigger] s[k] != c by {
            assert(s[k] == v@[from + k]);
        }
        lemma_find_char_at(s, c, s.len() as int);
    }
    None
}

/// Whether `pat` occurs in `v` at position `i`.
pub fn occurs_at_exec(v: &Vec<char>, pat: &Vec<char>, i: usize) -> (r: bool)
    ensures
        r == occurs_at(v@, pat@, i as int),
{
    if i > v.len() || pat.len() > v.len() - i {
        return false;
    }
    let mut k: usize = 0;
    while k < pat.len()
        invariant
            i + pat.len() <= v.len(),
            k <= pat.len(),
            forall|m: int| 0 <= m < k ==> v@[i + m] == pat@[m],
        decreases pat.len() - k,
    {
        if v[i + k] != pat[k] {
            proof {
                assert(v@.subrange(i as int, i + pat.len())[k as int] != pat@[k as int]);
            }
            return false;
        }
        k += 1;
    }
    assert(v@.subrange(i as int, i + pat.len()) =~= pat@);
    true
}

/// Leftmost occurrence of `pat` at or after `from`.
pub fn find_sub_exec(v: &Vec<char>, pat: &Vec<char>, from: usize) -> (r: Option<usize>)
    ensures
        r == (match find_sub_from(v@, pat@, from as int) {
            Some(i) => Some(i as usize),
            None => None::<usize>,
        }),
{
    let mut i = from;
    if i > v.len() {
        return None;
    }
    while i <= v.len()
        invariant
            from <= i <= v.len() + 1,
            find_sub_from(v@, pat@, from as int) == find_sub_from(v@, pat@, i as int),
        decreases v.len() + 1 - i,
    {
        if pat.len() > v.len() - i {
            return None;
        }
        if occurs_at_exec(v, pat, i) {
            return Some(i);
        }
        proof {
            if pat.len() == 0 {
                assert(v@.subrange(i as int, i as int) =~= pat@);
            }
        }
        i += 1;
    }
    None
}

/// Whether `v` starts with `p`.
pub fn has_prefix(v: &Vec<char>, p: &Vec<char>) -> (r: bool)
    ensures
        r == starts_with(v@, p@),
{
    let r = occurs_at_exec(v, p, 0);
    proof {
        if p.len() <= v.len() {
            assert(v@.subrange(0, p.len() as int) =~= v@.take(p.len() as int));
        }
    }
    r
}

/// Whether `v` ends with `p`.
pub fn has_suffix(v: &Vec<char>, p: &Vec<char>) -> (r: bool)
    ensures
        r == ends_with(v@, p@),
{
    if p.len() > v.len() {
        return false;
    }
    let r = occurs_at_exec(v, p, v.len() - p.len());
    proof {
        assert(v@.subrange(v.len() - p.len(), v.len() as int) =~= v@.skip(v.len() - p.len()));
    }
    r
}

/// Whether `v` contains `c`.
pub fn contains_char(v: &Vec<char>, c: char) -> (r: bool)
    ensures
        r == v@.contains(c),
{
    let f = find_char_from(v, c, 0);
    proof {
        assert(v@.skip(0) =~= v@);
        lemma_find_char(v@, c);
    }
    f.is_some()
}

/// Every `from` replaced by `to`.
pub fn replace_char_exec(v: &Vec<char>, from: char, to: char) -> (r: Vec<char>)
    ensures
        r@ == replace_char(v@, from, to),
{
    let mut r: Vec<char> = Vec::new();
    let mut i: usize = 0;
    while i < v.len()
        invariant
            i <= v.len(),
            r@ == replace_char(v@.take(i as int), from, to),
        decreases v.len() - i,
    {
        let c = v[i];
        r.push(if c == from { to } else { c });
        i += 1;
        assert(r@ =~= replace_char(v@.take(i as int), from, to));
    }
    assert(v@.take(v.len() as int) =~= v@);
    r
}

/// Width of a character in UTF-8.
pub fn char_len_exec(c: char) -> (n: usize)
    ensures
        n == char_len(c),
{
    let u = c as u32;
    if u < 0x80 {
        1
    } else if u < 0x800 {
        2
    } else if u < 0x10000 {
        3
    } else {
        4
    }
}

/// Number of characters from `from` that make up the next `n` bytes, if
/// those bytes end on a character boundary.
pub fn byte_prefix_exec(v: &Vec<char>, from: usize, n: usize) -> (r: Option<usize>)
    requires
        from <= v.len(),
    ensures
        r == (match byte_prefix(v@.skip(from as int), n as nat) {
            Some(k) => Some(k as usize),
            None => None::<usize>,
        }),
{
    let mut i = from;
    let mut left = n;
    while left > 0
        invariant
            from <= i <= v.len(),
            left <= n,
            i - from <= n - left,
            byte_prefix(v@.skip(from as int), n as nat) == (match byte_prefix(
                v@.skip(i as int),
                left as nat,
            ) {
                Some(k) => Some((k + (i - from)) as nat),
                None => None::<nat>,
            }),
        decreases left,
    {
        if i >= v.len() {
            return None;
        }
        let w = char_len_exec(v[i]);
        if w > left {
            return None;
        }
        proof {
            assert(v@.skip(i as int).drop_first() =~= v@.skip(i + 1));
        }
        left = left - w;
        i += 1;
    }
    Some(i - from)
}

/// `str::lines`.
pub fn split_lines(v: &Vec<char>) -> (r: Vec<Vec<char>>)
    ensures
        views(r@) == lines(v@),
{
    let mut r: Vec<Vec<char>> = Vec::new();
    let mut i: usize = 0;
    assert(v@.skip(0) =~= v@);
    assert(views(r@) =~= Seq::<Seq<char>>::empty());
    while i < v.len()
        invariant
            i <= v.len(),
            views(r@) + lines(v@.skip(i as int)) == lines(v@),
        decreases v.len() - i,
    {
        let ghost rest = v@.skip(i as int);
        match find_char_from(v, '\n', i) {
            Some(j) => {
                let mut end = j;
                if end > i && v[end - 1] == '\r' {
                    end = end - 1;
                }
                let line = slice(v, i, end);
                let ghost old_r = r@;
                let ghost old_dv = views(r@);
                proof {
                    let k = j - i;
                    lemma_find_char(rest, '\n');
                    assert(find_char(rest, '\n') == Some(k as int));
                    assert(line@ =~= line_body(rest.take(k as int), true));
                    assert(rest.skip(k + 1) =~= v@.skip(j + 1));
                    assert(old_dv.push(line@) + lines(v@.skip(j + 1)) =~= old_dv + lines(rest));
                }
                r.push(line);
                proof {
                    assert(r@ =~= old_r.push(line));
                    assert(views(r@) =~= old_dv.push(line@));
                }
                i = j + 1;
            },
            None => {
                let line = slice(v, i, v.len());
                let ghost old_r = r@;
                let ghost old_dv = views(r@);
                proof {
                    assert(line@ =~= rest);
                    assert(old_dv.push(line@) =~= old_dv + lines(rest));
                    assert(v@.skip(v.len() as int) =~= Seq::<char>::empty());
                }
                r.push(line);
                proof {
                    assert(r@ =~= old_r.push(line));
                    assert(views(r@) =~= old_dv.push(line@));
                }
                i = v.len();
            },
        }
    }
    proof {
        assert(v@.skip(v.len() as int) =~= Seq::<char>::empty());
        assert(views(r@) + lines(v@.skip(v.len() as int)) =~= views(r@));
    }
    r
}


/// `str::split_whitespace`.
pub fn split_words(v: &Vec<char>) -> (r: Vec<Vec<char>>)
    ensures
        views(r@) == words(v@),
{
    let mut r: Vec<Vec<char>> = Vec::new();
    let mut i: usize = 0;
    assert(v@.skip(0) =~= v@);
    assert(views(r@) =~= Seq::<Seq<char>>::empty());
    while i < v.len()
        invariant
            i <= v.len(),
            views(r@) + words(v@.skip(i as int)) == words(v@),
        decreases v.len() - i,
    {
        let ghost rest = v@.skip(i as int);
        if char_is_ws(v[i]) {
            proof {
                assert(rest.drop_first() =~= v@.skip(i + 1));
            }
            i += 1;
        } else {
            let j = nonws_run_end(v, i);
            let w = slice(v, i, j);
            let ghost old_r = r@;
            proof {
                lemma_lead_nonws_bound(rest);
                assert(lead_nonws(rest) >= 1) by {
                    reveal_with_fuel(lead_nonws, 2);
                }
                assert(rest.take((j - i) as int) =~= w@);
                assert(rest.skip((j - i) as int) =~= v@.skip(j as int));
                assert(views(old_r).push(w@) + words(v@.skip(j as int)) =~= views(old_r) + words(
                    rest,
                ));
            }
            r.push(w);
            proof {
                assert(r@ =~= old_r.push(w));
                assert(views(r@) =~= views(old_r).push(w@));
            }
            i = j;
        }
    }
    proof {
        assert(v@.skip(v.len() as int) =~= Seq::<char>::empty());
        assert(views(r@) + words(v@.skip(v.len() as int)) =~= views(r@));
    }
    r
}

/// Pieces joined with `sep` between them.
pub fn join_with_exec(ls: &Vec<Vec<char>>, sep: char) -> (r: Vec<char>)
    ensures
        r@ == join_with(views(ls@), sep),
{
    let mut r: Vec<char> = Vec::new();
    let mut i: usize = 0;
    while i < ls.len()
        invariant
            i <= ls.len(),
            r@ == join_with(views(ls@).take(i as int), sep),
        decreases ls.len() - i,
    {
        let ghost prev = views(ls@).take(i as int);
        if i > 0 {
            r.push(sep);
        }
        extend(&mut r, &ls[i]);
        i += 1;
        proof {
            let cur = views(ls@).take(i as int);
            assert(cur.drop_last() =~= prev);
            if i == 1 {
                assert(r@ =~= cur[0]);
            } else {
                assert(r@ =~= join_with(cur.drop_last(), sep) + seq![sep] + cur.last());
            }
        }
    }
    assert(views(ls@).take(ls.len() as int) =~= views(ls@));
    r
}

/// `split(sep)` with the empty pieces left out.
pub fn split_segments(v: &Vec<char>, sep: char) -> (r: Vec<Vec<char>>)
    ensures
        views(r@) == segments(v@, sep),
{
    let mut r: Vec<Vec<char>> = Vec::new();
    let mut i: usize = 0;
    assert(v@.skip(0) =~= v@);
    assert(views(r@) =~= Seq::<Seq<char>>::empty());
    while i < v.len()
        invariant
            i <= v.len(),
            views(r@) + segments(v@.skip(i as int), sep) == segments(v@, sep),
        decreases v.len() - i,
    {
        let ghost rest = v@.skip(i as int);
        if v[i] == sep {
            proof {
                assert(rest.drop_first() =~= v@.skip(i + 1));
            }
            i += 1;
        } else {
            let mut j = i;
            while j < v.len() && v[j] != sep
                invariant
                    i <= j <= v.len(),
                    forall|k: int| i <= k < j ==> #[trigger] v@[k] != sep,
                decreases v.len() - j,
            {
                j += 1;
            }
            let w = slice(v, i, j);
            let ghost old_r = r@;
            proof {
                lemma_lead_not_run(v@, sep, i as int, j as int);
                assert(rest.take((j - i) as int) =~= w@);
                assert(rest.skip((j - i) as int) =~= v@.skip(j as int));
                assert(views(old_r).push(w@) + segments(v@.skip(j as int), sep) =~= views(old_r)
                    + segments(rest, sep));
            }
            r.push(w);
            proof {
                assert(r@ =~= old_r.push(w));
                assert(views(r@) =~= views(old_r).push(w@));
            }
            i = j;
        }
    }
    proof {
        assert(v@.skip(v.len() as int) =~= Seq::<char>::empty());
        assert(views(r@) + segments(v@.skip(v.len() as int), sep) =~= views(r@));
    }
    r
}

/// Lines joined with `\n` between them.
pub fn join_lines_exec(ls: &Vec<Vec<char>>) -> (r: Vec<char>)
    ensures
        r@ == join_lines(views(ls@)),
{
    join_with_exec(ls, '\n')
}
} // verus!
