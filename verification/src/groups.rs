//! Tasks grouped under text keys, kept in key order (the order in which a
//! `BTreeMap<String, _>` walks its keys).
use vstd::prelude::*;
use crate::task::{task_views, Task, TaskView};
use crate::text::{chars_of, string_of};

verus! {

/// Lexicographic order of character sequences (code point order, which is
/// the byte order of their UTF-8 text).
pub open spec fn seq_lt(a: Seq<char>, b: Seq<char>) -> bool
    decreases a.len(),
{
    if a.len() == 0 {
        b.len() > 0
    } else if b.len() == 0 {
        false
    } else if a[0] < b[0] {
        true
    } else if a[0] == b[0] {
        seq_lt(a.drop_first(), b.drop_first())
    } else {
        false
    }
}

pub proof fn lemma_seq_lt_irreflexive(a: Seq<char>)
    ensures
        !seq_lt(a, a),
    decreases a.len(),
{
    if a.len() > 0 {
        lemma_seq_lt_irreflexive(a.drop_first());
    }
}

pub proof fn lemma_seq_lt_transitive(a: Seq<char>, b: Seq<char>, c: Seq<char>)
    requires
        seq_lt(a, b),
        seq_lt(b, c),
    ensures
        seq_lt(a, c),
    decreases a.len(),
{
    if a.len() > 0 && b.len() > 0 && c.len() > 0 && a[0] == b[0] && b[0] == c[0] {
        lemma_seq_lt_transitive(a.drop_first(), b.drop_first(), c.drop_first());
    }
}

/// Compares two character vectors: `-1`, `0` or `1` as `a` sorts before,
/// equal to, or after `b`.
pub fn compare_chars(a: &Vec<char>, b: &Vec<char>) -> (r: i8)
    ensures
        r == -1 <==> seq_lt(a@, b@),
        r == 0 <==> a@ == b@,
        r == 1 <==> seq_lt(b@, a@),
        r == -1 || r == 0 || r == 1,
{
    let mut k: usize = 0;
    assert(a@.skip(0) =~= a@);
    assert(b@.skip(0) =~= b@);
    while k < a.len() && k < b.len()
        invariant
            k <= a.len(),
            k <= b.len(),
            a@.take(k as int) == b@.take(k as int),
            seq_lt(a@, b@) == seq_lt(a@.skip(k as int), b@.skip(k as int)),
            seq_lt(b@, a@) == seq_lt(b@.skip(k as int), a@.skip(k as int)),
        decreases a.len() - k,
    {
        proof {
            assert(a@.skip(k as int)[0] == a@[k as int]);
            assert(b@.skip(k as int)[0] == b@[k as int]);
            assert(a@.skip(k as int).drop_first() =~= a@.skip(k + 1));
            assert(b@.skip(k as int).drop_first() =~= b@.skip(k + 1));
        }
        if a[k] < b[k] {
            proof {
                lemma_seq_lt_irreflexive(a@);
                if a@ == b@ {
                    assert(a@[k as int] == b@[k as int]);
                }
            }
            return -1;
        }
        if a[k] > b[k] {
            proof {
                if a@ == b@ {
                    assert(a@[k as int] == b@[k as int]);
                }
            }
            return 1;
        }
        k += 1;
        proof {
            assert(a@.take(k as int) =~= b@.take(k as int)) by {
                assert forall|m: int| 0 <= m < k implies a@.take(k as int)[m] == b@.take(
                    k as int,
                )[m] by {
                    if m < k - 1 {
                        assert(a@.take(k - 1)[m] == b@.take(k - 1)[m]);
                    }
                }
            }
        }
    }
    proof {
        assert(a@.skip(k as int).len() == 0 || b@.skip(k as int).len() == 0);
    }
    if a.len() == b.len() {
        proof {
            assert(a@ =~= a@.take(k as int));
            assert(b@ =~= b@.take(k as int));
            lemma_seq_lt_irreflexive(a@);
        }
        0
    } else if a.len() < b.len() {
        proof {
            if a@ == b@ {
                assert(a@.len() == b@.len());
            }
        }
        -1
    } else {
        proof {
            if a@ == b@ {
                assert(a@.len() == b@.len());
            }
        }
        1
    }
}

/// Tasks gathered under one key.
#[derive(Debug, Clone)]
pub struct TaskGroup {
    pub name: String,
    pub tasks: Vec<Task>,
}

pub open spec fn group_views(gs: Seq<TaskGroup>) -> Seq<(Seq<char>, Seq<TaskView>)> {
    gs.map_values(|g: TaskGroup| (g.name@, task_views(g.tasks@)))
}

/// The tasks filed under key `k`, in order.
pub open spec fn tasks_with_key(es: Seq<(Seq<char>, TaskView)>, k: Seq<char>) -> Seq<TaskView>
    decreases es.len(),
{
    if es.len() == 0 {
        seq![]
    } else {
        tasks_with_key(es.drop_last(), k) + if es.last().0 == k {
            seq![es.last().1]
        } else {
            seq![]
        }
    }
}

pub open spec fn has_key(es: Seq<(Seq<char>, TaskView)>, k: Seq<char>) -> bool {
    exists|i: int| 0 <= i < es.len() && #[trigger] es[i].0 == k
}

pub open spec fn groups_have_key(gs: Seq<(Seq<char>, Seq<TaskView>)>, k: Seq<char>) -> bool {
    exists|i: int| 0 <= i < gs.len() && #[trigger] gs[i].0 == k
}

/// The groups hold the entries (task under key, in order): one group per
/// key that occurs, in strictly increasing key order, each with the tasks
/// filed under its key in the order the entries list them.
pub open spec fn is_grouping(gs: Seq<(Seq<char>, Seq<TaskView>)>, es: Seq<(Seq<char>, TaskView)>) -> bool {
    &&& forall|i: int, j: int| 0 <= i < j < gs.len() ==> seq_lt(#[trigger] gs[i].0, #[trigger] gs[j].0)
    &&& forall|i: int| 0 <= i < gs.len() ==> #[trigger] gs[i].1 == tasks_with_key(es, gs[i].0)
    &&& forall|k: Seq<char>| #[trigger] has_key(es, k) <==> groups_have_key(gs, k)
}

pub proof fn lemma_tasks_with_key_push(es: Seq<(Seq<char>, TaskView)>, e: (Seq<char>, TaskView), k: Seq<char>)
    ensures
        tasks_with_key(es.push(e), k) == tasks_with_key(es, k) + if e.0 == k {
            seq![e.1]
        } else {
            seq![]
        },
{
    assert(es.push(e).drop_last() =~= es);
}

pub proof fn lemma_tasks_with_key_absent(es: Seq<(Seq<char>, TaskView)>, k: Seq<char>)
    requires
        !has_key(es, k),
    ensures
        tasks_with_key(es, k) == Seq::<TaskView>::empty(),
    decreases es.len(),
{
    if es.len() > 0 {
        assert(!has_key(es.drop_last(), k)) by {
            if has_key(es.drop_last(), k) {
                let i = choose|i: int| 0 <= i < es.drop_last().len() && #[trigger] es.drop_last()[i].0 == k;
                assert(es[i].0 == k);
            }
        }
        assert(es.last().0 != k) by {
            assert(es[es.len() - 1].0 == es.last().0);
        }
        lemma_tasks_with_key_absent(es.drop_last(), k);
    }
}

/// Files `t` under `key`, keeping the groups in key order.
pub(crate) fn group_add(gs: &mut Vec<TaskGroup>, key: &Vec<char>, t: Task, Ghost(es): Ghost<Seq<(Seq<char>, TaskView)>>)
    requires
        is_grouping(group_views(old(gs)@), es),
    ensures
        is_grouping(group_views(final(gs)@), es.push((key@, t@))),
{
    let ghost g0 = group_views(gs@);
    let ghost es2 = es.push((key@, t@));
    let mut j: usize = 0;
    let mut c: i8 = 1;
    let mut done = false;
    while j < gs.len() && !done
        invariant
            j <= gs.len(),
            gs@ == old(gs)@,
            g0 == group_views(gs@),
            forall|i: int| 0 <= i < j ==> seq_lt(#[trigger] g0[i].0, key@),
            done ==> j < gs.len() && (c == 0 || c == 1),
            done && c == 0 ==> g0[j as int].0 == key@,
            done && c == 1 ==> seq_lt(key@, g0[j as int].0),
            !done ==> c == 1,
        decreases gs.len() - j, if done { 0int } else { 1int },
    {
        let nc = chars_of(gs[j].name.as_str());
        let cc = compare_chars(&nc, key);
        proof {
            assert(g0[j as int].0 == gs@[j as int].name@);
        }
        if cc != -1 {
            done = true;
            c = cc;
        } else {
            j += 1;
        }
    }
    proof {
        assert forall|k: Seq<char>| #[trigger] has_key(es2, k) <==> (has_key(es, k) || k == key@) by {
            if has_key(es2, k) {
                let i = choose|i: int| 0 <= i < es2.len() && #[trigger] es2[i].0 == k;
                if i < es.len() {
                    assert(es[i].0 == k);
                }
            }
            if has_key(es, k) {
                let i = choose|i: int| 0 <= i < es.len() && #[trigger] es[i].0 == k;
                assert(es2[i].0 == k);
            }
            if k == key@ {
                assert(es2[es.len() as int].0 == k);
            }
        }
        assert forall|k: Seq<char>| #[trigger] tasks_with_key(es2, k) == tasks_with_key(es, k) + if k == key@ {
            seq![t@]
        } else {
            seq![]
        } by {
            lemma_tasks_with_key_push(es, (key@, t@), k);
        }
    }
    if done && c == 0 {
        // the key has a group: append to it
        let mut g = gs.remove(j);
        proof {
            assert(g.name@ == g0[j as int].0);
            assert(task_views(g.tasks@) == g0[j as int].1);
        }
        let ghost old_tasks = g.tasks@;
        g.tasks.push(t);
        proof {
            assert(g.tasks@ =~= old_tasks.push(t));
            assert(task_views(g.tasks@) =~= task_views(old_tasks).push(t@));
        }
        gs.insert(j, g);
        proof {
            let g1 = group_views(gs@);
            assert(g1 =~= g0.update(j as int, (key@, g0[j as int].1.push(t@))));
            assert forall|i: int| 0 <= i < g1.len() implies #[trigger] g1[i].1 == tasks_with_key(es2, g1[i].0) by {
                if i != j {
                    assert(g1[i] == g0[i]);
                    if g0[i].0 == key@ {
                        assert(g0[i].0 == g0[j as int].0);
                        if i < j {
                            assert(seq_lt(g0[i].0, g0[j as int].0));
                        } else {
                            assert(seq_lt(g0[j as int].0, g0[i].0));
                        }
                        lemma_seq_lt_irreflexive(key@);
                    }
                }
            }
            assert forall|k: Seq<char>| #[trigger] has_key(es2, k) <==> groups_have_key(g1, k) by {
                if groups_have_key(g0, k) {
                    let i = choose|i: int| 0 <= i < g0.len() && #[trigger] g0[i].0 == k;
                    assert(g1[i].0 == k);
                }
                if groups_have_key(g1, k) {
                    let i = choose|i: int| 0 <= i < g1.len() && #[trigger] g1[i].0 == k;
                    assert(g0[i].0 == k);
                }
                assert(has_key(es, k) <==> groups_have_key(g0, k));
            }
            assert forall|a: int, b: int| 0 <= a < b < g1.len() implies seq_lt(#[trigger] g1[a].0, #[trigger] g1[b].0) by {
                assert(g1[a].0 == g0[a].0);
                assert(g1[b].0 == g0[b].0);
            }
        }
    } else {
        // a new group at position j
        let mut tasks: Vec<Task> = Vec::new();
        tasks.push(t);
        let ng = TaskGroup { name: string_of(key), tasks };
        proof {
            assert(task_views(ng.tasks@) =~= seq![t@]);
        }
        gs.insert(j, ng);
        proof {
            let g1 = group_views(gs@);
            assert(g1 =~= g0.insert(j as int, (key@, seq![t@])));
            assert(!groups_have_key(g0, key@)) by {
                if groups_have_key(g0, key@) {
                    let i = choose|i: int| 0 <= i < g0.len() && #[trigger] g0[i].0 == key@;
                    lemma_seq_lt_irreflexive(key@);
                    if i >= j {
                        // g0[j] is after key, so everything from j on is after key
                        assert(seq_lt(key@, g0[j as int].0)) by {
                            assert(c == 1);
                        }
                        if i > j {
                            assert(seq_lt(g0[j as int].0, g0[i].0));
                            lemma_seq_lt_transitive(key@, g0[j as int].0, g0[i].0);
                        }
                    }
                }
            }
            assert(!has_key(es, key@));
            lemma_tasks_with_key_absent(es, key@);
            assert forall|i: int| 0 <= i < g1.len() implies #[trigger] g1[i].1 == tasks_with_key(es2, g1[i].0) by {
                if i < j {
                    assert(g1[i] == g0[i]);
                    assert(g0[i].0 != key@) by {
                        lemma_seq_lt_irreflexive(key@);
                    }
                } else if i > j {
                    assert(g1[i] == g0[i - 1]);
                    assert(g0[i - 1].0 != key@) by {
                        assert(groups_have_key(g0, g0[i - 1].0));
                    }
                } else {
                    assert(g1[i].1 =~= Seq::<TaskView>::empty() + seq![t@]);
                }
            }
            assert forall|k: Seq<char>| #[trigger] has_key(es2, k) <==> groups_have_key(g1, k) by {
                if groups_have_key(g0, k) {
                    let i = choose|i: int| 0 <= i < g0.len() && #[trigger] g0[i].0 == k;
                    if i < j {
                        assert(g1[i].0 == k);
                    } else {
                        assert(g1[i + 1].0 == k);
                    }
                }
                if groups_have_key(g1, k) {
                    let i = choose|i: int| 0 <= i < g1.len() && #[trigger] g1[i].0 == k;
                    if i < j {
                        assert(g0[i].0 == k);
                    } else if i > j {
                        assert(g0[i - 1].0 == k);
                    }
                }
                if k == key@ {
                    assert(g1[j as int].0 == k);
                }
                assert(has_key(es, k) <==> groups_have_key(g0, k));
            }
            assert forall|a: int, b: int| 0 <= a < b < g1.len() implies seq_lt(#[trigger] g1[a].0, #[trigger] g1[b].0) by {
                if j < gs.len() - 1 {
                    assert(seq_lt(key@, g0[j as int].0));
                }
                if b < j {
                    assert(g1[a].0 == g0[a].0 && g1[b].0 == g0[b].0);
                } else if b == j {
                    assert(g1[a].0 == g0[a].0);
                } else if a > j {
                    assert(g1[a].0 == g0[a - 1].0 && g1[b].0 == g0[b - 1].0);
                } else if a == j {
                    assert(g1[b].0 == g0[b - 1].0);
                    if b - 1 > j {
                        assert(seq_lt(g0[j as int].0, g0[b - 1].0));
                        lemma_seq_lt_transitive(key@, g0[j as int].0, g0[b - 1].0);
                    }
                } else {
                    assert(g1[a].0 == g0[a].0 && g1[b].0 == g0[b - 1].0);
                    if b - 1 >= j {
                        assert(seq_lt(g0[a].0, key@));
                        if b - 1 > j {
                            assert(seq_lt(g0[j as int].0, g0[b - 1].0));
                            lemma_seq_lt_transitive(key@, g0[j as int].0, g0[b - 1].0);
                        }
                        lemma_seq_lt_transitive(g0[a].0, key@, g0[b - 1].0);
                    }
                }
            }
        }
    }
}

/// The group with the given key, if any.
pub fn find_group(gs: &Vec<TaskGroup>, key: &str) -> (r: Option<usize>)
    ensures
        match r {
            Some(i) => i < gs.len() && gs@[i as int].name@ == key@,
            None => forall|i: int| 0 <= i < gs.len() ==> #[trigger] gs@[i].name@ != key@,
        },
{
    let kc = chars_of(key);
    let mut i: usize = 0;
    while i < gs.len()
        invariant
            i <= gs.len(),
            kc@ == key@,
            forall|m: int| 0 <= m < i ==> #[trigger] gs@[m].name@ != key@,
        decreases gs.len() - i,
    {
        if crate::task::chars_equal(&chars_of(gs[i].name.as_str()), &kc) {
            return Some(i);
        }
        i += 1;
    }
    None
}

} // verus!
