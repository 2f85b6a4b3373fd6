//! Unix path text: joining, absoluteness, components and extensions, as
//! `std::path` computes them on Unix.
use vstd::prelude::*;
use crate::text::{chars_of, extend, segments, split_segments, string_of, views};
use crate::task::chars_equal;

verus! {

/// `Path::is_absolute` on Unix: the path starts at the root.
pub open spec fn is_absolute(p: Seq<char>) -> bool {
    p.len() > 0 && p[0] == '/'
}

/// `Path::join` on Unix: an absolute `p` replaces `base`; otherwise `p` is
/// appended, with a `/` between unless `base` is empty or already ends in `/`.
pub open spec fn join_path(base: Seq<char>, p: Seq<char>) -> Seq<char> {
    if is_absolute(p) {
        p
    } else if base.len() == 0 || base.last() == '/' {
        base + p
    } else {
        base + seq!['/'] + p
    }
}

pub fn join_path_exec(base: &str, p: &str) -> (r: String)
    ensures
        r@ == join_path(base@, p@),
{
    let b = chars_of(base);
    let q = chars_of(p);
    if q.len() > 0 && q[0] == '/' {
        return string_of(&q);
    }
    let mut r: Vec<char> = Vec::new();
    extend(&mut r, &b);
    if b.len() > 0 && b[b.len() - 1] != '/' {
        r.push('/');
    }
    extend(&mut r, &q);
    proof {
        assert(r@ =~= join_path(base@, p@));
    }
    string_of(&r)
}

/// The pieces between `/` other than empty ones and `.`.
pub open spec fn named_parts(ss: Seq<Seq<char>>) -> Seq<Seq<char>>
    decreases ss.len(),
{
    if ss.len() == 0 {
        seq![]
    } else {
        named_parts(ss.drop_last()) + if ss.last() == seq!['.'] {
            seq![]
        } else {
            seq![ss.last()]
        }
    }
}

/// The path starts with a `.` component (`Component::CurDir`).
pub open spec fn starts_at_cur_dir(p: Seq<char>) -> bool {
    p.len() > 0 && p[0] == '.' && (p.len() == 1 || p[1] == '/')
}

/// The path's components are exactly the one normal component `name`
/// (how `Path` equality compares a path with a plain relative name).
pub open spec fn is_single_component(p: Seq<char>, name: Seq<char>) -> bool {
    !is_absolute(p) && !starts_at_cur_dir(p) && named_parts(segments(p, '/')) == seq![name]
}

/// `Path::file_name`: the last component, unless it is `..` or there is none.
pub open spec fn file_name(p: Seq<char>) -> Option<Seq<char>> {
    let parts = named_parts(segments(p, '/'));
    if parts.len() == 0 || parts.last() == seq!['.', '.'] {
        None
    } else {
        Some(parts.last())
    }
}

/// Position of the last `.` in a name.
pub open spec fn last_dot(s: Seq<char>) -> Option<int>
    decreases s.len(),
{
    if s.len() == 0 {
        None
    } else if s.last() == '.' {
        Some(s.len() - 1)
    } else {
        last_dot(s.drop_last())
    }
}

/// `Path::extension` of a file name: the text after the last `.`, unless
/// that `.` is the first character or there is none.
pub open spec fn extension(name: Seq<char>) -> Option<Seq<char>> {
    match last_dot(name) {
        Some(i) => if i == 0 {
            None
        } else {
            Some(name.skip(i + 1))
        },
        None => None,
    }
}

/// A vault note: a `.md` file outside any `.obsidian` folder.
pub open spec fn is_vault_note_path(p: Seq<char>) -> bool {
    &&& file_name(p) matches Some(n) && extension(n) == Some("md"@)
    &&& !segments(p, '/').contains(".obsidian"@)
}

fn named_parts_exec(ss: &Vec<Vec<char>>) -> (r: Vec<Vec<char>>)
    ensures
        views(r@) == named_parts(views(ss@)),
{
    let mut r: Vec<Vec<char>> = Vec::new();
    let mut i: usize = 0;
    while i < ss.len()
        invariant
            i <= ss.len(),
            views(r@) == named_parts(views(ss@).take(i as int)),
        decreases ss.len() - i,
    {
        let s = &ss[i];
        let ghost old_r = r@;
        proof {
            assert(views(ss@).take(i + 1).drop_last() =~= views(ss@).take(i as int));
            assert(views(ss@).take(i + 1).last() == s@);
        }
        if !(s.len() == 1 && s[0] == '.') {
            let c = crate::text::slice(s, 0, s.len());
            proof {
                assert(c@ =~= s@);
            }
            r.push(c);
            proof {
                assert(r@ =~= old_r.push(c));
                assert(views(r@) =~= views(old_r).push(s@));
            }
        } else {
            assert(s@ =~= seq!['.']);
        }
        i += 1;
    }
    assert(views(ss@).take(ss.len() as int) =~= views(ss@));
    r
}

/// Whether the path's components are exactly the normal component `name`.
pub fn is_single_component_exec(p: &str, name: &str) -> (r: bool)
    ensures
        r == is_single_component(p@, name@),
{
    let v = chars_of(p);
    if v.len() > 0 && v[0] == '/' {
        return false;
    }
    if v.len() > 0 && v[0] == '.' && (v.len() == 1 || v[1] == '/') {
        return false;
    }
    let parts = named_parts_exec(&split_segments(&v, '/'));
    if parts.len() != 1 {
        proof {
            assert(views(parts@).len() != 1);
        }
        return false;
    }
    let n = chars_of(name);
    let r = chars_equal(&parts[0], &n);
    proof {
        if r {
            assert(views(parts@) =~= seq![name@]);
        } else {
            assert(views(parts@)[0] != seq![name@][0]);
        }
    }
    r
}

proof fn lemma_last_dot(s: Seq<char>)
    ensures
        last_dot(s) matches Some(i) ==> 0 <= i < s.len(),
    decreases s.len(),
{
    if s.len() > 0 && s.last() != '.' {
        lemma_last_dot(s.drop_last());
    }
}

fn last_dot_exec(s: &Vec<char>) -> (r: Option<usize>)
    ensures
        r == (match last_dot(s@) {
            Some(i) => Some(i as usize),
            None => None::<usize>,
        }),
{
    let mut i = s.len();
    assert(s@.take(i as int) =~= s@);
    while i > 0
        invariant
            i <= s.len(),
            last_dot(s@) == last_dot(s@.take(i as int)),
        decreases i,
    {
        proof {
            assert(s@.take(i as int).last() == s@[i - 1]);
            assert(s@.take(i as int).drop_last() =~= s@.take(i - 1));
        }
        if s[i - 1] == '.' {
            return Some(i - 1);
        }
        i -= 1;
    }
    None
}

/// Whether a path names a vault note: a `.md` file outside `.obsidian`.
pub fn is_vault_note(p: &str) -> (r: bool)
    ensures
        r == is_vault_note_path(p@),
{
    let v = chars_of(p);
    let segs = split_segments(&v, '/');
    let obsidian = chars_of(".obsidian");
    let mut i: usize = 0;
    while i < segs.len()
        invariant
            i <= segs.len(),
            views(segs@) == segments(v@, '/'),
            v@ == p@,
            obsidian@ == ".obsidian"@,
            forall|k: int| 0 <= k < i ==> views(segs@)[k] != ".obsidian"@,
        decreases segs.len() - i,
    {
        if chars_equal(&segs[i], &obsidian) {
            proof {
                assert(views(segs@)[i as int] == ".obsidian"@);
                assert(segments(v@, '/').contains(".obsidian"@));
                assert(v@ == p@);
                assert(segments(p@, '/').contains(".obsidian"@));
                assert(!is_vault_note_path(p@));
            }
            return false;
        }
        i += 1;
    }
    let parts = named_parts_exec(&segs);
    if parts.len() == 0 {
        return false;
    }
    let last = &parts[parts.len() - 1];
    proof {
        assert(views(parts@).last() == last@);
    }
    if last.len() == 2 && last[0] == '.' && last[1] == '.' {
        assert(last@ =~= seq!['.', '.']);
        return false;
    }
    proof {
        if last@ == seq!['.', '.'] {
            assert(last@[0] == '.' && last@[1] == '.');
        }
    }
    let ld = last_dot_exec(last);
    proof {
        lemma_last_dot(last@);
    }
    match ld {
        Some(d) => {
            if d == 0 {
                return false;
            }
            let ext = crate::text::slice(last, d + 1, last.len());
            proof {
                assert(ext@ =~= last@.skip(d + 1));
            }
            chars_equal(&ext, &chars_of("md"))
        },
        None => false,
    }
}

} // verus!
