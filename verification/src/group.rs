//! Projects (the tasks of one file, grouped by status) and the views of many
//! projects at once: all their tasks, and their tasks grouped by context.
use vstd::prelude::*;
use crate::order::{sort_by_project, sort_by_project_spec};
use crate::pattern::valid_keys;
use crate::select::{
    TaskFilter, contains_status, contains_string, file_tasks_spec, read_tasks, statuses_view,
    tasks_view,
};
use crate::status::TaskStatus;
use crate::task::{Task, TaskModel};
use crate::text::{lines_of, strings_view};

verus! {

/// The statuses of `ts`, each once, in order of first appearance.
pub open spec fn distinct_statuses(ts: Seq<TaskModel>) -> Seq<Option<Seq<char>>>
    decreases ts.len(),
{
    if ts.len() == 0 {
        Seq::empty()
    } else {
        let prev = distinct_statuses(ts.drop_last());
        if prev.contains(ts.last().status) {
            prev
        } else {
            prev.push(ts.last().status)
        }
    }
}

/// The tasks of `ts` with status `st`, in order.
pub open spec fn with_status(ts: Seq<TaskModel>, st: Option<Seq<char>>) -> Seq<TaskModel>
    decreases ts.len(),
{
    if ts.len() == 0 {
        Seq::empty()
    } else {
        let prev = with_status(ts.drop_last(), st);
        if ts.last().status == st {
            prev.push(ts.last())
        } else {
            prev
        }
    }
}

/// The tasks of one status.
pub struct StatusGroup {
    pub status: TaskStatus,
    pub tasks: Vec<Task>,
}

/// `groups` holds the tasks `ts` grouped by status: one group per status, in
/// order of first appearance, each with its tasks in order.
pub open spec fn grouped_by_status(groups: Seq<StatusGroup>, ts: Seq<TaskModel>) -> bool {
    &&& groups.len() == distinct_statuses(ts).len()
    &&& forall|i: int|
        0 <= i < groups.len() ==> {
            &&& (#[trigger] groups[i]).status@ == distinct_statuses(ts)[i]
            &&& tasks_view(groups[i].tasks@) == with_status(ts, distinct_statuses(ts)[i])
        }
}

/// The tasks of a file, grouped by status.
pub struct Project {
    pub file_name: String,
    pub tasks: Vec<StatusGroup>,
}

fn tasks_with_status(tasks: &Vec<Task>, st: &TaskStatus) -> (r: Vec<Task>)
    ensures
        tasks_view(r@) == with_status(tasks_view(tasks@), st@),
{
    let ghost tv = tasks_view(tasks@);
    let mut r: Vec<Task> = Vec::new();
    let mut i: usize = 0;
    assert(tv.take(0) =~= Seq::<TaskModel>::empty());
    assert(tasks_view(r@) =~= Seq::<TaskModel>::empty());
    while i < tasks.len()
        invariant
            i <= tasks.len(),
            tv == tasks_view(tasks@),
            tasks_view(r@) == with_status(tv.take(i as int), st@),
        decreases tasks.len() - i,
    {
        assert(tv.take(i + 1).drop_last() =~= tv.take(i as int));
        assert(tv.take(i + 1).last() == tasks@[i as int]@);
        if tasks[i].status.same_as(st) {
            let ghost before = r@;
            let t = tasks[i].duplicate();
            r.push(t);
            assert(tasks_view(r@) =~= tasks_view(before).push(t@));
        }
        i = i + 1;
    }
    assert(tv.take(i as int) =~= tv);
    r
}

/// The tasks grouped by status: one group per status, in order of first
/// appearance, each holding the tasks of that status in their order.
pub fn group_by_status(tasks: &Vec<Task>) -> (r: Vec<StatusGroup>)
    ensures
        grouped_by_status(r@, tasks_view(tasks@)),
{
    let ghost tv = tasks_view(tasks@);
    let mut sts: Vec<TaskStatus> = Vec::new();
    let mut i: usize = 0;
    assert(tv.take(0) =~= Seq::<TaskModel>::empty());
    assert(statuses_view(sts@) =~= Seq::<Option<Seq<char>>>::empty());
    while i < tasks.len()
        invariant
            i <= tasks.len(),
            tv == tasks_view(tasks@),
            statuses_view(sts@) == distinct_statuses(tv.take(i as int)),
        decreases tasks.len() - i,
    {
        assert(tv.take(i + 1).drop_last() =~= tv.take(i as int));
        assert(tv.take(i + 1).last() == tasks@[i as int]@);
        if !contains_status(&sts, &tasks[i].status) {
            let ghost before = sts@;
            let s = tasks[i].status.duplicate();
            sts.push(s);
            assert(statuses_view(sts@) =~= statuses_view(before).push(s@));
        }
        i = i + 1;
    }
    assert(tv.take(i as int) =~= tv);
    let mut groups: Vec<StatusGroup> = Vec::new();
    let mut k: usize = 0;
    while k < sts.len()
        invariant
            k <= sts.len(),
            tv == tasks_view(tasks@),
            statuses_view(sts@) == distinct_statuses(tv),
            groups@.len() == k,
            forall|q: int|
                0 <= q < k ==> {
                    &&& (#[trigger] groups@[q]).status@ == distinct_statuses(tv)[q]
                    &&& tasks_view(groups@[q].tasks@) == with_status(tv, distinct_statuses(tv)[q])
                },
        decreases sts.len() - k,
    {
        assert(statuses_view(sts@)[k as int] == sts@[k as int]@);
        let bucket = tasks_with_status(tasks, &sts[k]);
        groups.push(StatusGroup { status: sts[k].duplicate(), tasks: bucket });
        k = k + 1;
    }
    groups
}

impl Project {
    /// The project of a file: its tasks (see `read_tasks`) grouped by status;
    /// `None` when the file has no task.
    pub fn of_file(
        file_name: &str,
        file_path: &str,
        content: &str,
        statuses: &[String],
        filter: &TaskFilter,
    ) -> (r: Option<Project>)
        requires
            valid_keys(strings_view(statuses@)),
        ensures
            ({
                let ts = file_tasks_spec(
                    lines_of(content@),
                    file_name@,
                    file_path@,
                    strings_view(statuses@),
                    *filter,
                );
                match r {
                    None => ts.len() == 0,
                    Some(p) => ts.len() > 0 && p.file_name@ == file_name@ && grouped_by_status(
                        p.tasks@,
                        ts,
                    ),
                }
            }),
    {
        let tasks = read_tasks(file_name, file_path, content, statuses, filter);
        if tasks.len() == 0 {
            None
        } else {
            Some(Project { file_name: String::from_str(file_name), tasks: group_by_status(&tasks) })
        }
    }
}

impl Project {
    /// The project of a file from its tasks, grouped by status; `None` when
    /// there is no task.
    pub fn of_tasks(file_name: &str, tasks: &Vec<Task>) -> (r: Option<Project>)
        ensures
            match r {
                None => tasks@.len() == 0,
                Some(p) => tasks@.len() > 0 && p.file_name@ == file_name@ && grouped_by_status(
                    p.tasks@,
                    tasks_view(tasks@),
                ),
            },
    {
        if tasks.len() == 0 {
            None
        } else {
            Some(Project { file_name: String::from_str(file_name), tasks: group_by_status(tasks) })
        }
    }
}

/// The tasks of the groups, group after group.
pub open spec fn groups_tasks(gs: Seq<StatusGroup>) -> Seq<TaskModel>
    decreases gs.len(),
{
    if gs.len() == 0 {
        Seq::empty()
    } else {
        groups_tasks(gs.drop_last()) + tasks_view(gs.last().tasks@)
    }
}

/// The tasks of the projects, project after project.
pub open spec fn projects_tasks(ps: Seq<Project>) -> Seq<TaskModel>
    decreases ps.len(),
{
    if ps.len() == 0 {
        Seq::empty()
    } else {
        projects_tasks(ps.drop_last()) + groups_tasks(ps.last().tasks@)
    }
}

fn append_tasks(r: &mut Vec<Task>, ts: &Vec<Task>)
    ensures
        tasks_view(final(r)@) == tasks_view(old(r)@) + tasks_view(ts@),
{
    let ghost start = tasks_view(r@);
    let mut i: usize = 0;
    assert(tasks_view(ts@).take(0) =~= Seq::<TaskModel>::empty());
    assert(start + Seq::<TaskModel>::empty() =~= start);
    while i < ts.len()
        invariant
            i <= ts.len(),
            tasks_view(r@) == start + tasks_view(ts@).take(i as int),
        decreases ts.len() - i,
    {
        let ghost before = r@;
        let t = ts[i].duplicate();
        r.push(t);
        assert(tasks_view(r@) =~= tasks_view(before).push(t@));
        assert(tasks_view(ts@).take(i + 1) =~= tasks_view(ts@).take(i as int).push(t@));
        i = i + 1;
    }
    assert(tasks_view(ts@).take(i as int) =~= tasks_view(ts@));
}

/// All the tasks of the projects, project after project and, within a
/// project, group after group.
pub fn flat_tasks(projects: &Vec<Project>) -> (r: Vec<Task>)
    ensures
        tasks_view(r@) == projects_tasks(projects@),
{
    let mut r: Vec<Task> = Vec::new();
    let mut i: usize = 0;
    assert(projects@.take(0) =~= Seq::<Project>::empty());
    assert(tasks_view(r@) =~= Seq::<TaskModel>::empty());
    while i < projects.len()
        invariant
            i <= projects.len(),
            tasks_view(r@) == projects_tasks(projects@.take(i as int)),
        decreases projects.len() - i,
    {
        assert(projects@.take(i + 1).drop_last() =~= projects@.take(i as int));
        let gs = &projects[i].tasks;
        let ghost base = tasks_view(r@);
        let mut k: usize = 0;
        assert(gs@.take(0) =~= Seq::<StatusGroup>::empty());
        assert(base + Seq::<TaskModel>::empty() =~= base);
        while k < gs.len()
            invariant
                k <= gs.len(),
                tasks_view(r@) == base + groups_tasks(gs@.take(k as int)),
            decreases gs.len() - k,
        {
            assert(gs@.take(k + 1).drop_last() =~= gs@.take(k as int));
            append_tasks(&mut r, &gs[k].tasks);
            assert(base + groups_tasks(gs@.take(k + 1)) =~= base + groups_tasks(
                gs@.take(k as int),
            ) + tasks_view(gs@[k as int].tasks@));
            k = k + 1;
        }
        assert(gs@.take(k as int) =~= gs@);
        i = i + 1;
    }
    assert(projects@.take(i as int) =~= projects@);
    r
}

/// Each context of `t`, paired with `t`.
pub open spec fn pairs_of_task(t: TaskModel) -> Seq<(Seq<char>, TaskModel)> {
    t.contexts.map_values(|c: Seq<char>| (c, t))
}

/// Each context of each task, paired with its task, in order.
pub open spec fn context_pairs(ts: Seq<TaskModel>) -> Seq<(Seq<char>, TaskModel)>
    decreases ts.len(),
{
    if ts.len() == 0 {
        Seq::empty()
    } else {
        context_pairs(ts.drop_last()) + pairs_of_task(ts.last())
    }
}

/// The contexts of the pairs, each once, in order of first appearance.
pub open spec fn distinct_contexts(ps: Seq<(Seq<char>, TaskModel)>) -> Seq<Seq<char>>
    decreases ps.len(),
{
    if ps.len() == 0 {
        Seq::empty()
    } else {
        let prev = distinct_contexts(ps.drop_last());
        if prev.contains(ps.last().0) {
            prev
        } else {
            prev.push(ps.last().0)
        }
    }
}

/// The tasks paired with the context `c`, in order.
pub open spec fn with_context(ps: Seq<(Seq<char>, TaskModel)>, c: Seq<char>) -> Seq<TaskModel>
    decreases ps.len(),
{
    if ps.len() == 0 {
        Seq::empty()
    } else {
        let prev = with_context(ps.drop_last(), c);
        if ps.last().0 == c {
            prev.push(ps.last().1)
        } else {
            prev
        }
    }
}

/// The tasks of one context.
pub struct ContextGroup {
    pub context: String,
    pub tasks: Vec<Task>,
}

pub open spec fn pairs_view(v: Seq<(String, Task)>) -> Seq<(Seq<char>, TaskModel)> {
    v.map_values(|p: (String, Task)| (p.0@, p.1@))
}

fn pairs_of(tasks: &Vec<Task>) -> (r: Vec<(String, Task)>)
    ensures
        pairs_view(r@) == context_pairs(tasks_view(tasks@)),
{
    let ghost tv = tasks_view(tasks@);
    let mut r: Vec<(String, Task)> = Vec::new();
    let mut i: usize = 0;
    assert(tv.take(0) =~= Seq::<TaskModel>::empty());
    assert(pairs_view(r@) =~= Seq::<(Seq<char>, TaskModel)>::empty());
    while i < tasks.len()
        invariant
            i <= tasks.len(),
            tv == tasks_view(tasks@),
            pairs_view(r@) == context_pairs(tv.take(i as int)),
        decreases tasks.len() - i,
    {
        assert(tv.take(i + 1).drop_last() =~= tv.take(i as int));
        assert(tv.take(i + 1).last() == tasks@[i as int]@);
        let t = &tasks[i];
        let ghost base = pairs_view(r@);
        let ghost own = pairs_of_task(t@);
        let mut k: usize = 0;
        assert(own.take(0) =~= Seq::<(Seq<char>, TaskModel)>::empty());
        assert(base + Seq::<(Seq<char>, TaskModel)>::empty() =~= base);
        while k < t.contexts.len()
            invariant
                k <= t.contexts.len(),
                t == &tasks[i as int],
                own == pairs_of_task(t@),
                pairs_view(r@) == base + own.take(k as int),
            decreases t.contexts.len() - k,
        {
            let ghost before = r@;
            let c = t.contexts[k].clone();
            let d = t.duplicate();
            r.push((c, d));
            assert(own[k as int] == (t.contexts@[k as int]@, t@));
            assert(pairs_view(r@) =~= pairs_view(before).push((c@, d@)));
            assert(own.take(k + 1) =~= own.take(k as int).push(own[k as int]));
            k = k + 1;
        }
        assert(own.take(k as int) =~= own);
        i = i + 1;
    }
    assert(tv.take(i as int) =~= tv);
    r
}

/// `ps` grouped by context: one group per context, in order of first
/// appearance, each holding the tasks paired with that context in order.
pub open spec fn grouped_by_context(groups: Seq<ContextGroup>, ps: Seq<(Seq<char>, TaskModel)>) -> bool {
    &&& groups.len() == distinct_contexts(ps).len()
    &&& forall|i: int|
        0 <= i < groups.len() ==> {
            &&& (#[trigger] groups[i]).context@ == distinct_contexts(ps)[i]
            &&& tasks_view(groups[i].tasks@) == with_context(ps, distinct_contexts(ps)[i])
        }
}

/// The tasks of the projects grouped by context: a task with several
/// contexts is in several groups.
pub fn pivot_on_context(projects: &Vec<Project>) -> (r: Vec<ContextGroup>)
    ensures
        grouped_by_context(r@, context_pairs(projects_tasks(projects@))),
{
    let flat = flat_tasks(projects);
    let pairs = pairs_of(&flat);
    let ghost pv = pairs_view(pairs@);
    let mut cs: Vec<String> = Vec::new();
    let mut i: usize = 0;
    assert(pv.take(0) =~= Seq::<(Seq<char>, TaskModel)>::empty());
    assert(strings_view(cs@) =~= Seq::<Seq<char>>::empty());
    while i < pairs.len()
        invariant
            i <= pairs.len(),
            pv == pairs_view(pairs@),
            strings_view(cs@) == distinct_contexts(pv.take(i as int)),
        decreases pairs.len() - i,
    {
        assert(pv.take(i + 1).drop_last() =~= pv.take(i as int));
        assert(pv.take(i + 1).last() == (pairs@[i as int].0@, pairs@[i as int].1@));
        if !contains_string(&cs, &pairs[i].0) {
            let ghost before = cs@;
            let c = pairs[i].0.clone();
            cs.push(c);
            assert(strings_view(cs@) =~= strings_view(before).push(c@));
        }
        i = i + 1;
    }
    assert(pv.take(i as int) =~= pv);
    let mut groups: Vec<ContextGroup> = Vec::new();
    let mut k: usize = 0;
    while k < cs.len()
        invariant
            k <= cs.len(),
            pv == pairs_view(pairs@),
            strings_view(cs@) == distinct_contexts(pv),
            groups@.len() == k,
            forall|q: int|
                0 <= q < k ==> {
                    &&& (#[trigger] groups@[q]).context@ == distinct_contexts(pv)[q]
                    &&& tasks_view(groups@[q].tasks@) == with_context(pv, distinct_contexts(pv)[q])
                },
        decreases cs.len() - k,
    {
        assert(strings_view(cs@)[k as int] == cs@[k as int]@);
        let mut bucket: Vec<Task> = Vec::new();
        let mut j: usize = 0;
        assert(pv.take(0) =~= Seq::<(Seq<char>, TaskModel)>::empty());
        assert(tasks_view(bucket@) =~= Seq::<TaskModel>::empty());
        while j < pairs.len()
            invariant
                j <= pairs.len(),
                k < cs.len(),
                pv == pairs_view(pairs@),
                tasks_view(bucket@) == with_context(pv.take(j as int), cs@[k as int]@),
            decreases pairs.len() - j,
        {
            assert(pv.take(j + 1).drop_last() =~= pv.take(j as int));
            assert(pv.take(j + 1).last() == (pairs@[j as int].0@, pairs@[j as int].1@));
            if pairs[j].0.eq(&cs[k]) {
                let ghost before = bucket@;
                let t = pairs[j].1.duplicate();
                bucket.push(t);
                assert(tasks_view(bucket@) =~= tasks_view(before).push(t@));
            }
            j = j + 1;
        }
        assert(pv.take(j as int) =~= pv);
        groups.push(ContextGroup { context: cs[k].clone(), tasks: bucket });
        k = k + 1;
    }
    groups
}

/// The tasks of the projects grouped by context, each group ordered by
/// project (tasks of the same project keeping their order).
pub fn by_context(projects: &Vec<Project>) -> (r: Vec<ContextGroup>)
    ensures
        ({
            let ps = context_pairs(projects_tasks(projects@));
            &&& r@.len() == distinct_contexts(ps).len()
            &&& forall|i: int|
                0 <= i < r@.len() ==> {
                    &&& (#[trigger] r@[i]).context@ == distinct_contexts(ps)[i]
                    &&& tasks_view(r@[i].tasks@) == sort_by_project_spec(
                        with_context(ps, distinct_contexts(ps)[i]),
                    )
                }
        }),
{
    let groups = pivot_on_context(projects);
    let ghost ps = context_pairs(projects_tasks(projects@));
    let mut r: Vec<ContextGroup> = Vec::new();
    let mut i: usize = 0;
    while i < groups.len()
        invariant
            i <= groups.len(),
            grouped_by_context(groups@, ps),
            r@.len() == i,
            forall|q: int|
                0 <= q < i ==> {
                    &&& (#[trigger] r@[q]).context@ == distinct_contexts(ps)[q]
                    &&& tasks_view(r@[q].tasks@) == sort_by_project_spec(
                        with_context(ps, distinct_contexts(ps)[q]),
                    )
                },
        decreases groups.len() - i,
    {
        let g = &groups[i];
        assert(g.context@ == distinct_contexts(ps)[i as int]);
        let sorted = sort_by_project(&g.tasks);
        r.push(ContextGroup { context: g.context.clone(), tasks: sorted });
        i = i + 1;
    }
    r
}

/// No status has two groups.
pub proof fn law_status_groups_distinct(ts: Seq<TaskModel>)
    ensures
        forall|i: int, j: int|
            0 <= i < j < distinct_statuses(ts).len() ==> distinct_statuses(ts)[i]
                != distinct_statuses(ts)[j],
    decreases ts.len(),
{
    if ts.len() > 0 {
        law_status_groups_distinct(ts.drop_last());
        let prev = distinct_statuses(ts.drop_last());
        let d = distinct_statuses(ts);
        if !prev.contains(ts.last().status) {
            assert forall|i: int, j: int| 0 <= i < j < d.len() implies d[i] != d[j] by {
                if j == prev.len() {
                    assert(d[i] == prev[i]);
                    if d[i] == d[j] {
                        assert(prev.contains(ts.last().status));
                    }
                } else {
                    assert(d[i] == prev[i] && d[j] == prev[j]);
                }
            }
        }
    }
}

/// Every task is in the group of its status.
pub proof fn law_every_task_in_its_group(ts: Seq<TaskModel>)
    ensures
        forall|k: int|
            0 <= k < ts.len() ==> distinct_statuses(ts).contains(#[trigger] ts[k].status)
                && with_status(ts, ts[k].status).contains(ts[k]),
    decreases ts.len(),
{
    if ts.len() > 0 {
        let d = ts.drop_last();
        law_every_task_in_its_group(d);
        assert forall|k: int| 0 <= k < ts.len() implies distinct_statuses(ts).contains(
            #[trigger] ts[k].status,
        ) && with_status(ts, ts[k].status).contains(ts[k]) by {
            let prev = distinct_statuses(d);
            if k < d.len() {
                assert(d[k] == ts[k]);
                assert(prev.contains(d[k].status));
                let i = choose|i: int| 0 <= i < prev.len() && prev[i] == d[k].status;
                assert(distinct_statuses(ts)[i] == ts[k].status);
                let w = with_status(d, ts[k].status);
                assert(w.contains(ts[k]));
                let q = choose|q: int| 0 <= q < w.len() && w[q] == ts[k];
                assert(with_status(ts, ts[k].status)[q] == ts[k]);
            } else {
                let last = ts.last();
                assert(ts[k] == last);
                if prev.contains(last.status) {
                } else {
                    assert(distinct_statuses(ts)[prev.len() as int] == last.status);
                }
                let w = with_status(ts, last.status);
                assert(w[w.len() - 1] == last);
            }
        }
    }
}

/// Every task in the group of a context has that context.
pub proof fn law_context_groups_hold_their_context(ts: Seq<TaskModel>, c: Seq<char>)
    ensures
        forall|k: int|
            0 <= k < with_context(context_pairs(ts), c).len() ==> (#[trigger] with_context(
                context_pairs(ts),
                c,
            )[k]).contexts.contains(c),
{
    lemma_context_pairs_hold(ts);
    lemma_with_context_holds(context_pairs(ts), c);
}

proof fn lemma_context_pairs_hold(ts: Seq<TaskModel>)
    ensures
        forall|k: int|
            0 <= k < context_pairs(ts).len() ==> (#[trigger] context_pairs(ts)[k]).1.contexts.contains(
                context_pairs(ts)[k].0,
            ),
    decreases ts.len(),
{
    if ts.len() > 0 {
        lemma_context_pairs_hold(ts.drop_last());
        let prev = context_pairs(ts.drop_last());
        let own = pairs_of_task(ts.last());
        let all = context_pairs(ts);
        assert forall|k: int| 0 <= k < all.len() implies (#[trigger] all[k]).1.contexts.contains(
            all[k].0,
        ) by {
            if k < prev.len() {
                assert(all[k] == prev[k]);
            } else {
                let q = k - prev.len();
                assert(all[k] == own[q]);
                assert(own[q] == (ts.last().contexts[q], ts.last()));
            }
        }
    }
}

proof fn lemma_with_context_holds(ps: Seq<(Seq<char>, TaskModel)>, c: Seq<char>)
    requires
        forall|k: int| 0 <= k < ps.len() ==> (#[trigger] ps[k]).1.contexts.contains(ps[k].0),
    ensures
        forall|k: int|
            0 <= k < with_context(ps, c).len() ==> (#[trigger] with_context(ps, c)[k]).contexts.contains(
                c,
            ),
    decreases ps.len(),
{
    if ps.len() > 0 {
        let d = ps.drop_last();
        assert forall|k: int| 0 <= k < d.len() implies (#[trigger] d[k]).1.contexts.contains(
            d[k].0,
        ) by {
            assert(d[k] == ps[k]);
        }
        lemma_with_context_holds(d, c);
        let w = with_context(ps, c);
        let prev = with_context(d, c);
        assert forall|k: int| 0 <= k < w.len() implies (#[trigger] w[k]).contexts.contains(c) by {
            if k < prev.len() {
                assert(w[k] == prev[k]);
            } else {
                assert(ps[ps.len() - 1].1.contexts.contains(ps[ps.len() - 1].0));
            }
        }
    }
}

/// The groups of the keys, key after key.
pub open spec fn concat_groups(keys: Seq<Option<Seq<char>>>, ts: Seq<TaskModel>) -> Seq<TaskModel>
    decreases keys.len(),
{
    if keys.len() == 0 {
        Seq::empty()
    } else {
        concat_groups(keys.drop_last(), ts) + with_status(ts, keys.last())
    }
}

proof fn lemma_absent_status_has_no_tasks(ts: Seq<TaskModel>, st: Option<Seq<char>>)
    requires
        !distinct_statuses(ts).contains(st),
    ensures
        with_status(ts, st) == Seq::<TaskModel>::empty(),
    decreases ts.len(),
{
    if ts.len() > 0 {
        let prev = distinct_statuses(ts.drop_last());
        assert(!prev.contains(st)) by {
            if prev.contains(st) {
                let i = choose|i: int| 0 <= i < prev.len() && prev[i] == st;
                assert(distinct_statuses(ts)[i] == st);
            }
        }
        if ts.last().status == st {
            assert(distinct_statuses(ts)[prev.len() as int] == st);
        }
        lemma_absent_status_has_no_tasks(ts.drop_last(), st);
    }
}

proof fn lemma_concat_groups_push(keys: Seq<Option<Seq<char>>>, ts: Seq<TaskModel>)
    requires
        ts.len() > 0,
        forall|i: int, j: int| 0 <= i < j < keys.len() ==> keys[i] != keys[j],
    ensures
        concat_groups(keys, ts).to_multiset() == if keys.contains(ts.last().status) {
            concat_groups(keys, ts.drop_last()).to_multiset().insert(ts.last())
        } else {
            concat_groups(keys, ts.drop_last()).to_multiset()
        },
    decreases keys.len(),
{
    broadcast use vstd::seq_lib::lemma_multiset_commutative;
    broadcast use vstd::seq_lib::group_to_multiset_ensures;
    broadcast use vstd::multiset::group_multiset_axioms;

    let x = ts.last();
    let d = ts.drop_last();
    if keys.len() > 0 {
        let kd = keys.drop_last();
        let k = keys.last();
        lemma_concat_groups_push(kd, ts);
        let a = concat_groups(kd, ts);
        let a2 = concat_groups(kd, d);
        let w = with_status(ts, k);
        let w2 = with_status(d, k);
        if x.status == k {
            assert(w == w2.push(x));
            assert(!kd.contains(k)) by {
                if kd.contains(k) {
                    let i = choose|i: int| 0 <= i < kd.len() && kd[i] == k;
                    assert(keys[i] == keys[keys.len() - 1]);
                }
            }
            assert(keys.contains(x.status)) by {
                assert(keys[keys.len() - 1] == k);
            }
            assert(a.to_multiset() == a2.to_multiset());
            assert(w.to_multiset() =~= w2.to_multiset().insert(x));
            assert((a + w).to_multiset() =~= (a2 + w2).to_multiset().insert(x));
        } else {
            assert(w == w2);
            assert(keys.contains(x.status) == kd.contains(x.status)) by {
                if keys.contains(x.status) {
                    let i = choose|i: int| 0 <= i < keys.len() && keys[i] == x.status;
                    assert(kd[i] == x.status);
                }
                if kd.contains(x.status) {
                    let i = choose|i: int| 0 <= i < kd.len() && kd[i] == x.status;
                    assert(keys[i] == x.status);
                }
            }
            if kd.contains(x.status) {
                assert((a + w).to_multiset() =~= (a2 + w2).to_multiset().insert(x));
            } else {
                assert((a + w).to_multiset() =~= (a2 + w2).to_multiset());
            }
        }
    }
}

/// The status groups together hold every task exactly once: their tasks,
/// group after group, are the tasks in some order.
pub proof fn law_status_groups_partition(ts: Seq<TaskModel>)
    ensures
        concat_groups(distinct_statuses(ts), ts).to_multiset() == ts.to_multiset(),
    decreases ts.len(),
{
    broadcast use vstd::seq_lib::lemma_multiset_commutative;
    broadcast use vstd::seq_lib::group_to_multiset_ensures;
    broadcast use vstd::multiset::group_multiset_axioms;

    if ts.len() == 0 {
        assert(ts.to_multiset() =~= vstd::multiset::Multiset::<TaskModel>::empty());
    } else {
        let d = ts.drop_last();
        let x = ts.last();
        law_status_groups_partition(d);
        let prev = distinct_statuses(d);
        law_status_groups_distinct(d);
        lemma_concat_groups_push(prev, ts);
        assert(d.push(x) =~= ts);
        if prev.contains(x.status) {
        } else {
            let keys = prev.push(x.status);
            assert(keys.drop_last() =~= prev);
            lemma_absent_status_has_no_tasks(d, x.status);
            assert(with_status(ts, x.status) =~= seq![x]);
            assert(concat_groups(keys, ts) == concat_groups(prev, ts) + seq![x]);
            assert(seq![x] =~= Seq::<TaskModel>::empty().push(x));
        }
    }
}

/// The status groups of a project hold every task of the file exactly once.
pub proof fn law_project_holds_every_task(groups: Seq<StatusGroup>, ts: Seq<TaskModel>)
    requires
        grouped_by_status(groups, ts),
    ensures
        groups_tasks(groups).to_multiset() == ts.to_multiset(),
{
    lemma_groups_tasks_concat(groups, ts, groups.len() as int);
    assert(groups.take(groups.len() as int) =~= groups);
    assert(distinct_statuses(ts).take(groups.len() as int) =~= distinct_statuses(ts));
    law_status_groups_partition(ts);
}

proof fn lemma_groups_tasks_concat(groups: Seq<StatusGroup>, ts: Seq<TaskModel>, n: int)
    requires
        grouped_by_status(groups, ts),
        0 <= n <= groups.len(),
    ensures
        groups_tasks(groups.take(n)) == concat_groups(distinct_statuses(ts).take(n), ts),
    decreases n,
{
    if n > 0 {
        lemma_groups_tasks_concat(groups, ts, n - 1);
        assert(groups.take(n).drop_last() =~= groups.take(n - 1));
        assert(distinct_statuses(ts).take(n).drop_last() =~= distinct_statuses(ts).take(n - 1));
        assert(groups[n - 1].status@ == distinct_statuses(ts)[n - 1]);
    } else {
        assert(groups.take(0) =~= Seq::<StatusGroup>::empty());
        assert(distinct_statuses(ts).take(0) =~= Seq::<Option<Seq<char>>>::empty());
    }
}

/// The tasks of the pairs, in order.
pub open spec fn paired_tasks(ps: Seq<(Seq<char>, TaskModel)>) -> Seq<TaskModel> {
    ps.map_values(|p: (Seq<char>, TaskModel)| p.1)
}

/// The context groups of the keys, key after key.
pub open spec fn concat_context_groups(keys: Seq<Seq<char>>, ps: Seq<(Seq<char>, TaskModel)>) -> Seq<TaskModel>
    decreases keys.len(),
{
    if keys.len() == 0 {
        Seq::empty()
    } else {
        concat_context_groups(keys.drop_last(), ps) + with_context(ps, keys.last())
    }
}

/// No context has two groups.
pub proof fn law_context_groups_distinct(ps: Seq<(Seq<char>, TaskModel)>)
    ensures
        forall|i: int, j: int|
            0 <= i < j < distinct_contexts(ps).len() ==> distinct_contexts(ps)[i]
                != distinct_contexts(ps)[j],
    decreases ps.len(),
{
    if ps.len() > 0 {
        law_context_groups_distinct(ps.drop_last());
        let prev = distinct_contexts(ps.drop_last());
        let d = distinct_contexts(ps);
        if !prev.contains(ps.last().0) {
            assert forall|i: int, j: int| 0 <= i < j < d.len() implies d[i] != d[j] by {
                if j == prev.len() {
                    assert(d[i] == prev[i]);
                    if d[i] == d[j] {
                        assert(prev.contains(ps.last().0));
                    }
                } else {
                    assert(d[i] == prev[i] && d[j] == prev[j]);
                }
            }
        }
    }
}

proof fn lemma_absent_context_has_no_tasks(ps: Seq<(Seq<char>, TaskModel)>, c: Seq<char>)
    requires
        !distinct_contexts(ps).contains(c),
    ensures
        with_context(ps, c) == Seq::<TaskModel>::empty(),
    decreases ps.len(),
{
    if ps.len() > 0 {
        let prev = distinct_contexts(ps.drop_last());
        assert(!prev.contains(c)) by {
            if prev.contains(c) {
                let i = choose|i: int| 0 <= i < prev.len() && prev[i] == c;
                assert(distinct_contexts(ps)[i] == c);
            }
        }
        if ps.last().0 == c {
            assert(distinct_contexts(ps)[prev.len() as int] == c);
        }
        lemma_absent_context_has_no_tasks(ps.drop_last(), c);
    }
}

proof fn lemma_concat_context_groups_push(keys: Seq<Seq<char>>, ps: Seq<(Seq<char>, TaskModel)>)
    requires
        ps.len() > 0,
        forall|i: int, j: int| 0 <= i < j < keys.len() ==> keys[i] != keys[j],
    ensures
        concat_context_groups(keys, ps).to_multiset() == if keys.contains(ps.last().0) {
            concat_context_groups(keys, ps.drop_last()).to_multiset().insert(ps.last().1)
        } else {
            concat_context_groups(keys, ps.drop_last()).to_multiset()
        },
    decreases keys.len(),
{
    broadcast use vstd::seq_lib::lemma_multiset_commutative;
    broadcast use vstd::seq_lib::group_to_multiset_ensures;
    broadcast use vstd::multiset::group_multiset_axioms;

    let x = ps.last();
    let d = ps.drop_last();
    if keys.len() > 0 {
        let kd = keys.drop_last();
        let k = keys.last();
        lemma_concat_context_groups_push(kd, ps);
        let a = concat_context_groups(kd, ps);
        let a2 = concat_context_groups(kd, d);
        let w = with_context(ps, k);
        let w2 = with_context(d, k);
        if x.0 == k {
            assert(w == w2.push(x.1));
            assert(!kd.contains(k)) by {
                if kd.contains(k) {
                    let i = choose|i: int| 0 <= i < kd.len() && kd[i] == k;
                    assert(keys[i] == keys[keys.len() - 1]);
                }
            }
            assert(keys.contains(x.0)) by {
                assert(keys[keys.len() - 1] == k);
            }
            assert(a.to_multiset() == a2.to_multiset());
            assert(w.to_multiset() =~= w2.to_multiset().insert(x.1));
            assert((a + w).to_multiset() =~= (a2 + w2).to_multiset().insert(x.1));
        } else {
            assert(w == w2);
            assert(keys.contains(x.0) == kd.contains(x.0)) by {
                if keys.contains(x.0) {
                    let i = choose|i: int| 0 <= i < keys.len() && keys[i] == x.0;
                    assert(kd[i] == x.0);
                }
                if kd.contains(x.0) {
                    let i = choose|i: int| 0 <= i < kd.len() && kd[i] == x.0;
                    assert(keys[i] == x.0);
                }
            }
            if kd.contains(x.0) {
                assert((a + w).to_multiset() =~= (a2 + w2).to_multiset().insert(x.1));
            } else {
                assert((a + w).to_multiset() =~= (a2 + w2).to_multiset());
            }
        }
    }
}

/// The context groups together hold every (context, task) pair exactly
/// once: their tasks, group after group, are the paired tasks in some order.
pub proof fn law_context_groups_partition(ps: Seq<(Seq<char>, TaskModel)>)
    ensures
        concat_context_groups(distinct_contexts(ps), ps).to_multiset() == paired_tasks(
            ps,
        ).to_multiset(),
    decreases ps.len(),
{
    broadcast use vstd::seq_lib::lemma_multiset_commutative;
    broadcast use vstd::seq_lib::group_to_multiset_ensures;
    broadcast use vstd::multiset::group_multiset_axioms;

    if ps.len() == 0 {
        assert(paired_tasks(ps) =~= Seq::<TaskModel>::empty());
    } else {
        let d = ps.drop_last();
        let x = ps.last();
        law_context_groups_partition(d);
        let prev = distinct_contexts(d);
        law_context_groups_distinct(d);
        lemma_concat_context_groups_push(prev, ps);
        assert(paired_tasks(ps) =~= paired_tasks(d).push(x.1));
        if prev.contains(x.0) {
        } else {
            let keys = prev.push(x.0);
            assert(keys.drop_last() =~= prev);
            lemma_absent_context_has_no_tasks(d, x.0);
            assert(with_context(ps, x.0) =~= seq![x.1]);
            assert(concat_context_groups(keys, ps) == concat_context_groups(prev, ps) + seq![x.1]);
            assert(seq![x.1] =~= Seq::<TaskModel>::empty().push(x.1));
        }
    }
}

} // verus!
