//! Laws of generated sections: a replacement touches nothing outside the
//! section's markers, a second replacement overwrites the first, and a
//! captured line lands inside the section.
use vstd::prelude::*;
use crate::text::{find_sub, find_sub_from, lemma_find_sub_from, occurs_at};
use crate::vault::{
    padded,
    end_marker, section_appended_spec, section_block, section_parts, section_replaced_spec,
    start_marker,
};

verus! {

/// The leftmost occurrence at or after `from` is `i` when the pattern occurs
/// at `i` and nowhere in between.
pub proof fn lemma_find_sub_from_is(s: Seq<char>, pat: Seq<char>, from: int, i: int)
    requires
        0 <= from <= i,
        occurs_at(s, pat, i),
        forall|k: int| from <= k < i ==> !occurs_at(s, pat, k),
    ensures
        find_sub_from(s, pat, from) == Some(i),
    decreases i - from,
{
    if from < i {
        assert(!occurs_at(s, pat, from));
        lemma_find_sub_from_is(s, pat, from + 1, i);
    }
}

/// Where the section lies, with its markers in place.
pub proof fn lemma_section_parts(raw: Seq<char>, section: Seq<char>)
    requires
        section_parts(raw, section) is Some,
    ensures
        ({
            let (s, m, e) = section_parts(raw, section).unwrap();
            &&& 0 <= s <= m
            &&& e == m + end_marker(section).len()
            &&& e <= raw.len()
            &&& occurs_at(raw, start_marker(section), s)
            &&& occurs_at(raw, end_marker(section), m)
            &&& forall|k: int| 0 <= k < s ==> !occurs_at(raw, start_marker(section), k)
            &&& forall|k: int| s <= k < m ==> !occurs_at(raw, end_marker(section), k)
        }),
{
    lemma_find_sub_from(raw, start_marker(section), 0);
    let s = find_sub(raw, start_marker(section)).unwrap();
    lemma_find_sub_from(raw, end_marker(section), s);
}

/// Replacing a section keeps everything before its start marker and after
/// its end marker: the text in between, markers included, becomes the new
/// block.
pub proof fn law_replace_only_inside(raw: Seq<char>, section: Seq<char>, body: Seq<char>)
    requires
        section_parts(raw, section) is Some,
    ensures
        ({
            let (s, m, e) = section_parts(raw, section).unwrap();
            let r = section_replaced_spec(raw, section, body);
            let b = section_block(section, body);
            &&& occurs_at(raw, start_marker(section), s)
            &&& occurs_at(raw, end_marker(section), m)
            &&& e == m + end_marker(section).len()
            &&& r.take(s) == raw.take(s)
            &&& r.subrange(s, s + b.len()) == b
            &&& r.skip(s + b.len()) == raw.skip(e)
            &&& r.len() == raw.len() - (e - s) + b.len()
        }),
{
    lemma_section_parts(raw, section);
    let (s, m, e) = section_parts(raw, section).unwrap();
    let r = section_replaced_spec(raw, section, body);
    let b = section_block(section, body);
    assert(r == raw.take(s) + b + raw.skip(e));
    assert(r.take(s) =~= raw.take(s));
    assert(r.subrange(s, s + b.len()) =~= b);
    assert(r.skip(s + b.len()) =~= raw.skip(e));
}

/// The new block begins with the start marker and ends with the end marker.
proof fn lemma_block_markers(section: Seq<char>, body: Seq<char>)
    ensures
        ({
            let b = section_block(section, body);
            &&& occurs_at(b, start_marker(section), 0)
            &&& occurs_at(b, end_marker(section), b.len() - end_marker(section).len())
        }),
{
    let b = section_block(section, body);
    let sm = start_marker(section);
    let em = end_marker(section);
    assert(b.subrange(0, sm.len() as int) =~= sm);
    assert(b.subrange(b.len() - em.len(), b.len() as int) =~= em);
}

/// After a replacement, the section is found again exactly where the new
/// block lies, when the block's first end marker is its own last one.
pub proof fn lemma_replaced_parts(raw: Seq<char>, section: Seq<char>, body: Seq<char>)
    requires
        section_parts(raw, section) is Some,
        find_sub(section_block(section, body), end_marker(section)) == Some(
            section_block(section, body).len() - end_marker(section).len(),
        ),
    ensures
        ({
            let s = section_parts(raw, section).unwrap().0;
            let b = section_block(section, body);
            section_parts(section_replaced_spec(raw, section, body), section) == Some(
                (s, s + b.len() - end_marker(section).len(), s + b.len()),
            )
        }),
{
    lemma_section_parts(raw, section);
    law_replace_only_inside(raw, section, body);
    lemma_block_markers(section, body);
    let (s, m, e) = section_parts(raw, section).unwrap();
    let r = section_replaced_spec(raw, section, body);
    let b = section_block(section, body);
    let sm = start_marker(section);
    let em = end_marker(section);
    assert(r == raw.take(s) + b + raw.skip(e));
    assert(b.len() >= sm.len() + em.len());
    // The start marker: first found at s.
    assert(r.subrange(s, s + sm.len()) =~= sm) by {
        assert forall|j: int| 0 <= j < sm.len() implies r.subrange(s, s + sm.len())[j] == sm[j] by {
            assert(r[s + j] == b[j]);
            assert(b.subrange(0, sm.len() as int)[j] == b[j]);
        }
    }
    assert forall|k: int| 0 <= k < s implies !occurs_at(r, sm, k) by {
        if occurs_at(r, sm, k) {
            assert(raw.subrange(k, k + sm.len()) =~= r.subrange(k, k + sm.len())) by {
                assert forall|j: int| 0 <= j < sm.len() implies #[trigger] raw.subrange(k, k + sm.len())[j]
                    == r.subrange(k, k + sm.len())[j] by {
                    let p = k + j;
                    if p < s {
                        assert(r[p] == raw[p]);
                    } else {
                        assert(r[p] == b[p - s]);
                        assert(b[p - s] == b.subrange(0, sm.len() as int)[p - s]);
                        assert(raw[p] == raw.subrange(s, s + sm.len())[p - s]);
                    }
                }
            }
            assert(occurs_at(raw, sm, k));
        }
    }
    lemma_find_sub_from_is(r, sm, 0, s);
    // The end marker: first found at the end of the block.
    lemma_find_sub_from(b, em, 0);
    let mb = b.len() - em.len();
    assert(r.subrange(s + mb, s + b.len()) =~= em) by {
        assert forall|j: int| 0 <= j < em.len() implies r.subrange(s + mb, s + b.len())[j] == em[j] by {
            assert(r[s + mb + j] == b[mb + j]);
            assert(b.subrange(mb, b.len() as int)[j] == b[mb + j]);
        }
    }
    assert forall|k: int| s <= k < s + mb implies !occurs_at(r, em, k) by {
        if occurs_at(r, em, k) {
            assert(b.subrange(k - s, k - s + em.len()) =~= r.subrange(k, k + em.len())) by {
                assert forall|j: int| 0 <= j < em.len() implies #[trigger] b.subrange(k - s, k - s + em.len())[j]
                    == r.subrange(k, k + em.len())[j] by {
                    assert(r[k + j] == b[k - s + j]);
                }
            }
            assert(occurs_at(b, em, k - s));
        }
    }
    lemma_find_sub_from_is(r, em, s, s + mb);
}

/// The start marker is never empty.
proof fn lemma_start_marker_nonempty(section: Seq<char>)
    ensures
        start_marker(section).len() > 0,
{
    reveal_strlit("<!-- focus:");
    reveal_strlit(":start -->");
}

/// The start marker, put right after the note's padding, is the first one
/// there: the note holds none, and none runs from the note into it.
pub open spec fn appended_found(raw: Seq<char>, section: Seq<char>) -> bool {
    find_sub(padded(raw) + start_marker(section), start_marker(section)) == Some(
        padded(raw).len() as int,
    )
}

/// A note in which the appended start marker is the first has no start
/// marker of its own.
proof fn lemma_appended_lacks(raw: Seq<char>, section: Seq<char>)
    requires
        appended_found(raw, section),
    ensures
        find_sub(raw, start_marker(section)) is None,
{
    let sm = start_marker(section);
    let x = padded(raw) + sm;
    lemma_find_sub_from(raw, sm, 0);
    lemma_find_sub_from(x, sm, 0);
    lemma_start_marker_nonempty(section);
    if let Some(q) = find_sub(raw, sm) {
        assert(q < padded(raw).len());
        assert(x.subrange(q, q + sm.len()) =~= raw.subrange(q, q + sm.len())) by {
            assert forall|j: int| 0 <= j < sm.len() implies #[trigger] x.subrange(q, q + sm.len())[j]
                == raw.subrange(q, q + sm.len())[j] by {
                assert(x[q + j] == raw[q + j]);
            }
        }
        assert(occurs_at(x, sm, q));
    }
}

/// When the appended start marker is the first, it is first found, after
/// padding and a block that starts with it, at the block.
proof fn lemma_start_after_padding(raw: Seq<char>, section: Seq<char>, b: Seq<char>, r: Seq<char>)
    requires
        appended_found(raw, section),
        occurs_at(b, start_marker(section), 0),
        r == padded(raw) + b + seq!['\n'],
    ensures
        find_sub(r, start_marker(section)) == Some(padded(raw).len() as int),
{
    let sm = start_marker(section);
    let pr = padded(raw);
    let p = pr.len() as int;
    let x = pr + sm;
    lemma_find_sub_from(x, sm, 0);
    assert forall|i: int| 0 <= i < p + sm.len() implies #[trigger] r[i] == x[i] by {
        if i >= p {
            assert(r[i] == b[i - p]);
            assert(b.subrange(0, sm.len() as int)[i - p] == b[i - p]);
        }
    }
    assert(r.subrange(p, p + sm.len()) =~= sm) by {
        assert forall|j: int| 0 <= j < sm.len() implies r.subrange(p, p + sm.len())[j] == sm[j] by {
            assert(r[p + j] == x[p + j]);
        }
    }
    assert forall|k: int| 0 <= k < p implies !occurs_at(r, sm, k) by {
        if occurs_at(r, sm, k) {
            assert(x.subrange(k, k + sm.len()) =~= r.subrange(k, k + sm.len())) by {
                assert forall|j: int| 0 <= j < sm.len() implies #[trigger] x.subrange(
                    k,
                    k + sm.len(),
                )[j] == r.subrange(k, k + sm.len())[j] by {
                    assert(r[k + j] == x[k + j]);
                }
            }
            assert(occurs_at(x, sm, k));
        }
    }
    lemma_find_sub_from_is(r, sm, 0, p);
}

/// The first end marker at or after a block that ends with its own first
/// end marker is that one.
proof fn lemma_end_of_block(r: Seq<char>, p: int, b: Seq<char>, em: Seq<char>)
    requires
        0 <= p,
        p + b.len() <= r.len(),
        r.subrange(p, p + b.len()) == b,
        b.len() >= em.len(),
        find_sub(b, em) == Some(b.len() - em.len()),
    ensures
        find_sub_from(r, em, p) == Some(p + b.len() - em.len()),
{
    lemma_find_sub_from(b, em, 0);
    let mb = b.len() - em.len();
    assert forall|j: int| 0 <= j < b.len() implies r[p + j] == #[trigger] b[j] by {
        assert(r.subrange(p, p + b.len())[j] == r[p + j]);
    }
    assert(r.subrange(p + mb, p + b.len()) =~= em) by {
        assert forall|j: int| 0 <= j < em.len() implies r.subrange(p + mb, p + b.len())[j] == em[j] by {
            assert(r[p + mb + j] == b[mb + j]);
            assert(b.subrange(mb, b.len() as int)[j] == b[mb + j]);
        }
    }
    assert forall|k: int| p <= k < p + mb implies !occurs_at(r, em, k) by {
        if occurs_at(r, em, k) {
            assert(b.subrange(k - p, k - p + em.len()) =~= r.subrange(k, k + em.len())) by {
                assert forall|j: int| 0 <= j < em.len() implies #[trigger] b.subrange(
                    k - p,
                    k - p + em.len(),
                )[j] == r.subrange(k, k + em.len())[j] by {
                    assert(r[k + j] == b[k - p + j]);
                }
            }
            assert(occurs_at(b, em, k - p));
        }
    }
    lemma_find_sub_from_is(r, em, p, p + mb);
}

/// A section appended to a note is found again exactly where the new block
/// lies, when the appended start marker is the first one and the block
/// brings in no stray end marker.
pub proof fn lemma_appended_parts(raw: Seq<char>, section: Seq<char>, body: Seq<char>)
    requires
        appended_found(raw, section),
        find_sub(section_block(section, body), end_marker(section)) == Some(
            section_block(section, body).len() - end_marker(section).len(),
        ),
    ensures
        ({
            let p = padded(raw).len() as int;
            let b = section_block(section, body);
            &&& section_replaced_spec(raw, section, body) == padded(raw) + b + seq!['\n']
            &&& section_parts(section_replaced_spec(raw, section, body), section) == Some(
                (p, p + b.len() - end_marker(section).len(), p + b.len()),
            )
        }),
{
    let b = section_block(section, body);
    let pr = padded(raw);
    let p = pr.len() as int;
    lemma_appended_lacks(raw, section);
    assert(section_parts(raw, section) is None);
    let r = section_replaced_spec(raw, section, body);
    assert(r == pr + b + seq!['\n']);
    lemma_block_markers(section, body);
    lemma_start_after_padding(raw, section, b, r);
    assert(b.len() >= end_marker(section).len());
    assert(r.subrange(p, p + b.len()) =~= b);
    lemma_end_of_block(r, p, b, end_marker(section));
}

/// Replacing a section twice is replacing it once with the second body:
/// the last write is what the section holds, and repeating the same
/// replacement changes nothing. This holds when the note already has the
/// section, or when the start marker that the append puts after the note
/// is the first one (the note has none of its own, and the padding and
/// the note's end do not spell one out with it), and the first body does
/// not bring in an end marker of its own.
pub proof fn law_replace_twice(raw: Seq<char>, section: Seq<char>, b1: Seq<char>, b2: Seq<char>)
    requires
        section_parts(raw, section) is Some || appended_found(raw, section),
        find_sub(section_block(section, b1), end_marker(section)) == Some(
            section_block(section, b1).len() - end_marker(section).len(),
        ),
    ensures
        section_replaced_spec(section_replaced_spec(raw, section, b1), section, b2)
            == section_replaced_spec(raw, section, b2),
        section_replaced_spec(section_replaced_spec(raw, section, b1), section, b1)
            == section_replaced_spec(raw, section, b1),
{
    let r1 = section_replaced_spec(raw, section, b1);
    let bl1 = section_block(section, b1);
    let bl2 = section_block(section, b2);
    if section_parts(raw, section) is Some {
        lemma_replaced_parts(raw, section, b1);
        law_replace_only_inside(raw, section, b1);
        let (s, m, e) = section_parts(raw, section).unwrap();
        assert(r1 == raw.take(s) + bl1 + raw.skip(e));
        assert(r1.take(s) =~= raw.take(s));
        assert(r1.skip(s + bl1.len()) =~= raw.skip(e));
        assert(section_replaced_spec(r1, section, b2) == r1.take(s) + bl2 + r1.skip(s + bl1.len()));
        assert(section_replaced_spec(r1, section, b1) == r1.take(s) + bl1 + r1.skip(s + bl1.len()));
    } else {
        lemma_appended_parts(raw, section, b1);
        assert(section_parts(raw, section) is None);
        let p = padded(raw).len() as int;
        assert(r1.take(p) =~= padded(raw));
        assert(r1.skip(p + bl1.len()) =~= seq!['\n']);
        assert(section_replaced_spec(r1, section, b2) == r1.take(p) + bl2 + r1.skip(p + bl1.len()));
        assert(section_replaced_spec(r1, section, b1) == r1.take(p) + bl1 + r1.skip(p + bl1.len()));
        assert(section_replaced_spec(raw, section, b2) == padded(raw) + bl2 + seq!['\n']);
    }
}

/// A captured line lands inside the section: the text up to the section's
/// end marker is kept, the line follows on a line of its own, and the end
/// marker and everything after it follow unchanged.
pub proof fn law_capture_inside_section(
    raw: Seq<char>,
    section: Seq<char>,
    heading: Seq<char>,
    line: Seq<char>,
)
    requires
        section_parts(raw, section) is Some,
    ensures
        ({
            let (s, m, e) = section_parts(raw, section).unwrap();
            let r = section_appended_spec(raw, section, heading, line);
            let sep: Seq<char> = if m > 0 && raw[m - 1] == '\n' {
                seq![]
            } else {
                seq!['\n']
            };
            let at = m + sep.len();
            &&& s <= m
            &&& occurs_at(raw, start_marker(section), s)
            &&& r.take(m) == raw.take(m)
            &&& r.subrange(m, at) == sep
            &&& r.subrange(at, at + line.len()) == line
            &&& r[at + line.len()] == '\n'
            &&& r.skip(at + line.len() + 1) == raw.skip(m)
            &&& occurs_at(r, end_marker(section), at + line.len() + 1)
        }),
{
    lemma_section_parts(raw, section);
    let (s, m, e) = section_parts(raw, section).unwrap();
    let r = section_appended_spec(raw, section, heading, line);
    let sep: Seq<char> = if m > 0 && raw[m - 1] == '\n' {
        seq![]
    } else {
        seq!['\n']
    };
    let prefix = raw.take(m);
    assert(prefix.len() > 0 && prefix.last() == '\n' <==> m > 0 && raw[m - 1] == '\n');
    assert(r == prefix + sep + line + seq!['\n'] + raw.skip(m));
    let at = m + sep.len();
    let em = end_marker(section);
    assert(r.take(m) =~= prefix);
    assert(r.subrange(m, at) =~= sep);
    assert(r.subrange(at, at + line.len()) =~= line);
    assert(r.skip(at + line.len() + 1) =~= raw.skip(m));
    let q = at + line.len() + 1;
    assert(r.subrange(q, q + em.len()) =~= em) by {
        assert forall|j: int| 0 <= j < em.len() implies r.subrange(q, q + em.len())[j] == em[j] by {
            assert(r[q + j] == raw[m + j]);
            assert(raw.subrange(m, m + em.len())[j] == raw[m + j]);
        }
    }
}

} // verus!
