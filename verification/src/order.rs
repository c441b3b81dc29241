//! Ordering tasks by project name.
use vstd::prelude::*;
use crate::select::tasks_view;
use crate::task::{Task, TaskModel};

verus! {

broadcast use vstd::seq_lib::group_to_multiset_ensures;

/// `a` comes before `b` or equals it, comparing character by character
/// (character codes, which is also the byte order of their UTF-8 forms).
pub open spec fn lex_le(a: Seq<char>, b: Seq<char>) -> bool
    decreases a.len(),
{
    if a.len() == 0 {
        true
    } else if b.len() == 0 {
        false
    } else if a[0] < b[0] {
        true
    } else if a[0] > b[0] {
        false
    } else {
        lex_le(a.drop_first(), b.drop_first())
    }
}

/// `x` placed into `s` after the last element whose project does not come
/// after that of `x`.
pub open spec fn insert_by_project(s: Seq<TaskModel>, x: TaskModel) -> Seq<TaskModel>
    decreases s.len(),
{
    if s.len() == 0 {
        seq![x]
    } else if lex_le(s.last().project, x.project) {
        s.push(x)
    } else {
        insert_by_project(s.drop_last(), x).push(s.last())
    }
}

/// The tasks ordered by project, tasks of the same project keeping their
/// order.
pub open spec fn sort_by_project_spec(s: Seq<TaskModel>) -> Seq<TaskModel>
    decreases s.len(),
{
    if s.len() == 0 {
        Seq::empty()
    } else {
        insert_by_project(sort_by_project_spec(s.drop_last()), s.last())
    }
}

/// The tasks of `s` whose project is `p`, in their order in `s`.
pub open spec fn with_project(s: Seq<TaskModel>, p: Seq<char>) -> Seq<TaskModel>
    decreases s.len(),
{
    if s.len() == 0 {
        Seq::empty()
    } else if s.last().project == p {
        with_project(s.drop_last(), p).push(s.last())
    } else {
        with_project(s.drop_last(), p)
    }
}

pub open spec fn sorted_by_project(s: Seq<TaskModel>) -> bool {
    forall|i: int, j: int| 0 <= i < j < s.len() ==> lex_le(#[trigger] s[i].project, #[trigger] s[j].project)
}

/// Whether the project of `a` does not come after that of `b`.
fn project_le(a: &Task, b: &Task) -> (r: bool)
    ensures
        r == lex_le(a.project@, b.project@),
{
    let x = crate::text::chars_of(a.project.as_str());
    let y = crate::text::chars_of(b.project.as_str());
    let mut i: usize = 0;
    assert(x@.skip(0) =~= x@);
    assert(y@.skip(0) =~= y@);
    while i < x.len() && i < y.len() && x[i] == y[i]
        invariant
            i <= x.len(),
            i <= y.len(),
            lex_le(x@, y@) == lex_le(x@.skip(i as int), y@.skip(i as int)),
        decreases x.len() - i,
    {
        assert(x@.skip(i as int).drop_first() =~= x@.skip(i + 1));
        assert(y@.skip(i as int).drop_first() =~= y@.skip(i + 1));
        i = i + 1;
    }
    if i == x.len() {
        true
    } else if i == y.len() {
        false
    } else {
        x[i] < y[i]
    }
}

/// The tasks ordered by project; tasks of the same project keep their order.
pub fn sort_by_project(tasks: &Vec<Task>) -> (r: Vec<Task>)
    ensures
        tasks_view(r@) == sort_by_project_spec(tasks_view(tasks@)),
{
    let ghost tv = tasks_view(tasks@);
    let mut r: Vec<Task> = Vec::new();
    let mut i: usize = 0;
    assert(tv.take(0) =~= Seq::<TaskModel>::empty());
    assert(tasks_view(r@) =~= Seq::<TaskModel>::empty());
    while i < tasks.len()
        invariant
            i <= tasks.len(),
            tv == tasks_view(tasks@),
            tasks_view(r@) == sort_by_project_spec(tv.take(i as int)),
        decreases tasks.len() - i,
    {
        assert(tv.take(i + 1).drop_last() =~= tv.take(i as int));
        let x = tasks[i].duplicate();
        let ghost s = tasks_view(r@);
        let mut k = r.len();
        assert(s.take(k as int) =~= s);
        assert(s.skip(k as int) =~= Seq::<TaskModel>::empty());
        while k > 0 && !project_le(&r[k - 1], &x)
            invariant
                k <= r.len(),
                s == tasks_view(r@),
                insert_by_project(s, x@) == insert_by_project(s.take(k as int), x@) + s.skip(
                    k as int,
                ),
            decreases k,
        {
            assert(s.take(k as int).drop_last() =~= s.take(k - 1));
            assert(s.take(k as int).last() == s[k - 1]);
            assert(s.skip(k - 1) =~= seq![s[k - 1]] + s.skip(k as int));
            assert(insert_by_project(s.take(k - 1), x@).push(s[k - 1]) + s.skip(k as int)
                =~= insert_by_project(s.take(k - 1), x@) + s.skip(k - 1));
            k = k - 1;
        }
        if k > 0 {
            assert(s.take(k as int).last() == s[k - 1]);
        } else {
            assert(s.take(0) =~= Seq::<TaskModel>::empty());
        }
        let ghost xv = x@;
        r.insert(k, x);
        assert(tasks_view(r@) =~= s.take(k as int).push(xv) + s.skip(k as int));
        i = i + 1;
    }
    assert(tv.take(i as int) =~= tv);
    r
}

/// Characters compare as a total order.
proof fn lemma_lex_total(a: Seq<char>, b: Seq<char>)
    ensures
        lex_le(a, b) || lex_le(b, a),
    decreases a.len(),
{
    if a.len() > 0 && b.len() > 0 && a[0] == b[0] {
        lemma_lex_total(a.drop_first(), b.drop_first());
    }
}

proof fn lemma_lex_trans(a: Seq<char>, b: Seq<char>, c: Seq<char>)
    requires
        lex_le(a, b),
        lex_le(b, c),
    ensures
        lex_le(a, c),
    decreases a.len(),
{
    if a.len() > 0 && b.len() > 0 && c.len() > 0 && a[0] == b[0] && b[0] == c[0] {
        lemma_lex_trans(a.drop_first(), b.drop_first(), c.drop_first());
    }
}

proof fn lemma_insert_multiset(s: Seq<TaskModel>, x: TaskModel)
    ensures
        insert_by_project(s, x).to_multiset() =~= s.to_multiset().insert(x),
    decreases s.len(),
{
    if s.len() == 0 {
        assert(seq![x] =~= Seq::<TaskModel>::empty().push(x));
    } else if lex_le(s.last().project, x.project) {
    } else {
        lemma_insert_multiset(s.drop_last(), x);
        assert(s.drop_last().push(s.last()) =~= s);
    }
}

proof fn lemma_insert_sorted(s: Seq<TaskModel>, x: TaskModel)
    requires
        sorted_by_project(s),
    ensures
        sorted_by_project(insert_by_project(s, x)),
    decreases s.len(),
{
    let r = insert_by_project(s, x);
    if s.len() == 0 {
    } else if lex_le(s.last().project, x.project) {
        assert forall|i: int, j: int| 0 <= i < j < r.len() implies lex_le(
            #[trigger] r[i].project,
            #[trigger] r[j].project,
        ) by {
            if j == s.len() && i < s.len() - 1 {
                lemma_lex_trans(s[i].project, s.last().project, x.project);
            }
        }
    } else {
        let d = s.drop_last();
        lemma_insert_sorted(d, x);
        lemma_insert_multiset(d, x);
        lemma_lex_total(s.last().project, x.project);
        let q = insert_by_project(d, x);
        assert forall|i: int| 0 <= i < q.len() implies lex_le(
            #[trigger] q[i].project,
            s.last().project,
        ) by {
            assert(q.to_multiset().count(q[i]) > 0);
            assert(d.to_multiset().insert(x).count(q[i]) > 0);
            if q[i] != x {
                assert(d.to_multiset().count(q[i]) > 0);
                assert(d.contains(q[i]));
                let k = choose|k: int| 0 <= k < d.len() && d[k] == q[i];
                assert(s[k] == d[k]);
            }
        }
        assert forall|i: int, j: int| 0 <= i < j < r.len() implies lex_le(
            #[trigger] r[i].project,
            #[trigger] r[j].project,
        ) by {
            if j == q.len() {
                assert(r[i] == q[i]);
            } else {
                assert(r[i] == q[i] && r[j] == q[j]);
            }
        }
    }
}

proof fn lemma_lex_refl(a: Seq<char>)
    ensures
        lex_le(a, a),
    decreases a.len(),
{
    if a.len() > 0 {
        lemma_lex_refl(a.drop_first());
    }
}

/// Placing `x` leaves the tasks of each project in their order, with `x`
/// after those of its own project.
proof fn lemma_insert_keeps_project_order(s: Seq<TaskModel>, x: TaskModel, p: Seq<char>)
    ensures
        with_project(insert_by_project(s, x), p) == with_project(s, p) + if x.project == p {
            seq![x]
        } else {
            Seq::empty()
        },
    decreases s.len(),
{
    let r = insert_by_project(s, x);
    if s.len() == 0 {
        assert(r.drop_last() =~= Seq::<TaskModel>::empty());
        assert(r.last() == x);
        assert(with_project(r.drop_last(), p) =~= Seq::<TaskModel>::empty());
        assert(with_project(s, p) =~= Seq::<TaskModel>::empty());
        if x.project == p {
            assert(with_project(r, p) =~= with_project(s, p) + seq![x]);
        } else {
            assert(with_project(r, p) =~= with_project(s, p) + Seq::<TaskModel>::empty());
        }
    } else if lex_le(s.last().project, x.project) {
        assert(r.drop_last() =~= s);
        if x.project == p {
            assert(with_project(r, p) =~= with_project(s, p) + seq![x]);
        } else {
            assert(with_project(r, p) =~= with_project(s, p) + Seq::<TaskModel>::empty());
        }
    } else {
        let q = insert_by_project(s.drop_last(), x);
        lemma_insert_keeps_project_order(s.drop_last(), x, p);
        lemma_lex_refl(x.project);
        assert(r.drop_last() =~= q);
        assert(s.last().project != x.project);
        if x.project == p {
            assert(with_project(r, p) =~= with_project(s, p) + seq![x]);
        } else if s.last().project == p {
            assert(with_project(s.drop_last(), p) + Seq::<TaskModel>::empty() =~= with_project(
                s.drop_last(),
                p,
            ));
            assert(with_project(r, p) =~= with_project(s, p) + Seq::<TaskModel>::empty());
        } else {
            assert(with_project(r, p) =~= with_project(s, p) + Seq::<TaskModel>::empty());
        }
    }
}

/// Ordering by project keeps the order of the tasks of each project: those
/// of project `p` come out in the order in which they went in.
pub proof fn law_sort_keeps_order_within_project(s: Seq<TaskModel>, p: Seq<char>)
    ensures
        with_project(sort_by_project_spec(s), p) == with_project(s, p),
    decreases s.len(),
{
    if s.len() > 0 {
        law_sort_keeps_order_within_project(s.drop_last(), p);
        lemma_insert_keeps_project_order(sort_by_project_spec(s.drop_last()), s.last(), p);
        if s.last().project == p {
            assert(with_project(s, p) =~= with_project(s.drop_last(), p) + seq![s.last()]);
        } else {
            assert(with_project(s, p) =~= with_project(s.drop_last(), p) + Seq::<TaskModel>::empty());
        }
    }
}

/// Ordering by project yields the tasks ordered by project.
pub proof fn law_sorted_by_project(s: Seq<TaskModel>)
    ensures
        sorted_by_project(sort_by_project_spec(s)),
    decreases s.len(),
{
    if s.len() > 0 {
        law_sorted_by_project(s.drop_last());
        lemma_insert_sorted(sort_by_project_spec(s.drop_last()), s.last());
    }
}

/// Ordering by project neither loses nor adds a task: the result holds each
/// task as many times as the input does.
pub proof fn law_sort_is_permutation(s: Seq<TaskModel>)
    ensures
        sort_by_project_spec(s).to_multiset() =~= s.to_multiset(),
    decreases s.len(),
{
    if s.len() > 0 {
        law_sort_is_permutation(s.drop_last());
        lemma_insert_multiset(sort_by_project_spec(s.drop_last()), s.last());
        assert(s.drop_last().push(s.last()) =~= s);
    }
}

} // verus!
