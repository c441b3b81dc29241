//! Reading the tasks of one file: which lines are task lines, which tasks
//! are kept, and how the tasks of a file headed by a `- @gtd` line take the
//! status, dates and contexts of that line.
use vstd::prelude::*;
use crate::dates::{TaskDates, dates_spec};
use crate::pattern::{TokenKind, has_token, tokens, valid_keys};
use crate::status::{TaskStatus, classify_spec};
use crate::task::{Task, TaskModel, description_spec, task_from_spec};
use crate::text::{lines, lines_of, starts_with, strings_view};

verus! {

/// The views of a sequence of tasks.
pub open spec fn tasks_view(ts: Seq<Task>) -> Seq<TaskModel> {
    ts.map_values(|t: Task| t@)
}

/// The views of a sequence of statuses.
pub open spec fn statuses_view(ss: Seq<TaskStatus>) -> Seq<Option<Seq<char>>> {
    ss.map_values(|s: TaskStatus| s@)
}

/// `- `
pub open spec fn dash_bullet() -> Seq<char> {
    seq!['-', ' ']
}

/// `* `
pub open spec fn star_bullet() -> Seq<char> {
    seq!['*', ' ']
}

/// `- @gtd`, the first line of a file whose tasks share a status.
pub open spec fn gtd_marker() -> Seq<char> {
    seq!['-', ' ', '@', 'g', 't', 'd']
}

/// A Markdown bullet line: it starts with `- ` or `* `.
pub open spec fn is_task_line(line: Seq<char>) -> bool {
    dash_bullet().is_prefix_of(line) || star_bullet().is_prefix_of(line)
}

pub open spec fn is_gtd_line(line: Seq<char>) -> bool {
    gtd_marker().is_prefix_of(line)
}

/// The number of the `n`-th line (counted from 1), when it fits in `u32`.
pub open spec fn line_number(n: int) -> Option<u32> {
    if 1 <= n <= u32::MAX {
        Some(n as u32)
    } else {
        None
    }
}

/// The task lines among `lines`, each with its line number.
pub open spec fn numbered_task_lines(lines: Seq<Seq<char>>) -> Seq<(Option<u32>, Seq<char>)>
    decreases lines.len(),
{
    if lines.len() == 0 {
        Seq::empty()
    } else {
        let prev = numbered_task_lines(lines.drop_last());
        if is_task_line(lines.last()) {
            prev.push((line_number(lines.len() as int), lines.last()))
        } else {
            prev
        }
    }
}

pub open spec fn start_of(d: Option<(Option<Seq<char>>, Option<Seq<char>>, Option<Seq<char>>)>) -> Option<Seq<char>> {
    match d {
        Some(d) => d.0,
        None => None,
    }
}

pub open spec fn due_of(d: Option<(Option<Seq<char>>, Option<Seq<char>>, Option<Seq<char>>)>) -> Option<Seq<char>> {
    match d {
        Some(d) => d.1,
        None => None,
    }
}

pub open spec fn visible_of(d: Option<(Option<Seq<char>>, Option<Seq<char>>, Option<Seq<char>>)>) -> Option<Seq<char>> {
    match d {
        Some(d) => d.2,
        None => None,
    }
}

pub open spec fn first_some(a: Option<Seq<char>>, b: Option<Seq<char>>) -> Option<Seq<char>> {
    match a {
        Some(x) => Some(x),
        None => b,
    }
}

/// A task of a file headed by the task `head`: without a status of its own it
/// takes the head's status; its start and due dates default to the head's;
/// its visible-from date is its own due date, or else the head's visible-from
/// date; the head's contexts follow its own.
pub open spec fn inherit_spec(t: TaskModel, head: TaskModel) -> TaskModel {
    let start = first_some(start_of(t.dates), start_of(head.dates));
    let due = first_some(due_of(t.dates), due_of(head.dates));
    let visible = first_some(due_of(t.dates), visible_of(head.dates));
    TaskModel {
        status: if t.status is None {
            head.status
        } else {
            t.status
        },
        dates: if start is None && due is None && visible is None {
            None
        } else {
            Some((start, due, visible))
        },
        contexts: t.contexts + head.contexts,
        ..t
    }
}

/// Which tasks are listed: only tasks with a status, context or date; only
/// the asked statuses and contexts, when some are asked; and no task without
/// a status that has one of the contexts hidden by default.
pub struct TaskFilter {
    pub statuses: Vec<TaskStatus>,
    pub contexts: Vec<String>,
    pub default_not_context: Vec<String>,
}

pub open spec fn has_any_of(cs: Seq<Seq<char>>, wanted: Seq<Seq<char>>) -> bool {
    exists|i: int| 0 <= i < cs.len() && wanted.contains(#[trigger] cs[i])
}

impl TaskFilter {
    pub open spec fn keeps_model(self, t: TaskModel) -> bool {
        &&& !(t.contexts.len() == 0 && t.status is None && t.dates is None)
        &&& (self.statuses@.len() == 0 || statuses_view(self.statuses@).contains(t.status))
        &&& (self.contexts@.len() == 0 || has_any_of(t.contexts, strings_view(self.contexts@)))
        &&& !(has_any_of(t.contexts, strings_view(self.default_not_context@)) && t.status is None)
    }

    /// The filter for the asked statuses and contexts; the contexts hidden by
    /// default apply only when no context is asked.
    pub fn new(
        statuses: Vec<TaskStatus>,
        contexts: Vec<String>,
        default_not_context: Option<Vec<String>>,
    ) -> (f: TaskFilter)
        ensures
            f.statuses@ == statuses@,
            f.contexts@ == contexts@,
            f.default_not_context@ == if contexts@.len() == 0 {
                match default_not_context {
                    Some(d) => d@,
                    None => Seq::empty(),
                }
            } else {
                Seq::empty()
            },
    {
        let dnc = if contexts.len() == 0 {
            match default_not_context {
                Some(d) => d,
                None => Vec::new(),
            }
        } else {
            Vec::new()
        };
        TaskFilter { statuses, contexts, default_not_context: dnc }
    }

    /// Whether the task is listed.
    pub fn keeps(&self, task: &Task) -> (r: bool)
        ensures
            r == self.keeps_model(task@),
    {
        if task.has_noflags() {
            return false;
        }
        if self.statuses.len() > 0 && !contains_status(&self.statuses, &task.status) {
            return false;
        }
        if self.contexts.len() > 0 && !any_of(&task.contexts, &self.contexts) {
            return false;
        }
        let no_status = match task.status {
            TaskStatus::NoStatus => true,
            TaskStatus::Status(_) => false,
        };
        !(any_of(&task.contexts, &self.default_not_context) && no_status)
    }
}

pub fn contains_status(ss: &Vec<TaskStatus>, s: &TaskStatus) -> (r: bool)
    ensures
        r == statuses_view(ss@).contains(s@),
{
    let mut i: usize = 0;
    while i < ss.len()
        invariant
            i <= ss.len(),
            forall|k: int| 0 <= k < i ==> ss@[k]@ != s@,
        decreases ss.len() - i,
    {
        if ss[i].same_as(s) {
            assert(statuses_view(ss@)[i as int] == s@);
            return true;
        }
        i = i + 1;
    }
    assert(!statuses_view(ss@).contains(s@)) by {
        if statuses_view(ss@).contains(s@) {
            let k = choose|k: int| 0 <= k < ss@.len() && statuses_view(ss@)[k] == s@;
            assert(ss@[k]@ == s@);
        }
    }
    false
}

/// Whether `v` holds the string `s`.
pub fn contains_string(v: &Vec<String>, s: &String) -> (r: bool)
    ensures
        r == strings_view(v@).contains(s@),
{
    let mut i: usize = 0;
    while i < v.len()
        invariant
            i <= v.len(),
            forall|k: int| 0 <= k < i ==> v@[k]@ != s@,
        decreases v.len() - i,
    {
        if v[i].eq(s) {
            assert(strings_view(v@)[i as int] == s@);
            return true;
        }
        i = i + 1;
    }
    assert(!strings_view(v@).contains(s@)) by {
        if strings_view(v@).contains(s@) {
            let k = choose|k: int| 0 <= k < v@.len() && strings_view(v@)[k] == s@;
            assert(v@[k]@ == s@);
        }
    }
    false
}

fn any_of(cs: &Vec<String>, wanted: &Vec<String>) -> (r: bool)
    ensures
        r == has_any_of(strings_view(cs@), strings_view(wanted@)),
{
    let mut i: usize = 0;
    while i < cs.len()
        invariant
            i <= cs.len(),
            forall|k: int| 0 <= k < i ==> !strings_view(wanted@).contains(#[trigger] cs@[k]@),
        decreases cs.len() - i,
    {
        if contains_string(wanted, &cs[i]) {
            assert(strings_view(cs@)[i as int] == cs@[i as int]@);
            return true;
        }
        i = i + 1;
    }
    assert(!has_any_of(strings_view(cs@), strings_view(wanted@))) by {
        if has_any_of(strings_view(cs@), strings_view(wanted@)) {
            let k = choose|k: int|
                0 <= k < cs@.len() && strings_view(wanted@).contains(
                    #[trigger] strings_view(cs@)[k],
                );
            assert(strings_view(cs@)[k] == cs@[k]@);
        }
    }
    false
}

/// The tasks of a file headed by `head`: every task line but the `- @gtd`
/// ones, each taking what it lacks from `head`.
pub open spec fn gtd_tasks(
    nl: Seq<(Option<u32>, Seq<char>)>,
    head: TaskModel,
    file_name: Seq<char>,
    path: Seq<char>,
    statuses: Seq<Seq<char>>,
) -> Seq<TaskModel>
    decreases nl.len(),
{
    if nl.len() == 0 {
        Seq::empty()
    } else {
        let prev = gtd_tasks(nl.drop_last(), head, file_name, path, statuses);
        let l = nl.last();
        if is_gtd_line(l.1) {
            prev
        } else {
            prev.push(inherit_spec(task_from_spec(l.1, file_name, Some(path), l.0, statuses), head))
        }
    }
}

/// The tasks of an ordinary file: the task lines that hold a token of
/// `TokenKind::AnyTask`, read as tasks, and kept by the filter.
pub open spec fn plain_tasks(
    nl: Seq<(Option<u32>, Seq<char>)>,
    file_name: Seq<char>,
    path: Seq<char>,
    statuses: Seq<Seq<char>>,
    f: TaskFilter,
) -> Seq<TaskModel>
    decreases nl.len(),
{
    if nl.len() == 0 {
        Seq::empty()
    } else {
        let prev = plain_tasks(nl.drop_last(), file_name, path, statuses, f);
        let l = nl.last();
        let t = task_from_spec(l.1, file_name, Some(path), l.0, statuses);
        if has_token(l.1, TokenKind::AnyTask(statuses)) && f.keeps_model(t) {
            prev.push(t)
        } else {
            prev
        }
    }
}

/// The tasks of a file with the given lines, in line order: when its first
/// task line starts with `- @gtd`, all its other task lines, each under
/// that first one; otherwise the task lines kept by the filter.
pub open spec fn file_tasks_spec(
    lines: Seq<Seq<char>>,
    file_name: Seq<char>,
    path: Seq<char>,
    statuses: Seq<Seq<char>>,
    f: TaskFilter,
) -> Seq<TaskModel> {
    let nl = numbered_task_lines(lines);
    if nl.len() > 0 && is_gtd_line(nl[0].1) {
        let head = task_from_spec(nl[0].1, file_name, Some(path), nl[0].0, statuses);
        gtd_tasks(nl, head, file_name, path, statuses)
    } else {
        plain_tasks(nl, file_name, path, statuses, f)
    }
}

pub open spec fn numbered_view(v: Seq<(Option<u32>, String)>) -> Seq<(Option<u32>, Seq<char>)> {
    v.map_values(|l: (Option<u32>, String)| (l.0, l.1@))
}

fn line_number_of(i: usize) -> (r: Option<u32>)
    ensures
        r == line_number(i + 1),
{
    if i < u32::MAX as usize {
        Some((i + 1) as u32)
    } else {
        None
    }
}

/// Whether the line is a Markdown bullet (`- ` or `* `).
pub fn task_line(line: &str) -> (r: bool)
    ensures
        r == is_task_line(line@),
{
    proof {
        reveal_strlit("- ");
        reveal_strlit("* ");
        assert("- "@ =~= dash_bullet());
        assert("* "@ =~= star_bullet());
    }
    starts_with(line, "- ") || starts_with(line, "* ")
}

fn gtd_line(line: &str) -> (r: bool)
    ensures
        r == is_gtd_line(line@),
{
    proof {
        reveal_strlit("- @gtd");
        assert("- @gtd"@ =~= gtd_marker());
    }
    starts_with(line, "- @gtd")
}

/// The task lines of a text, each with its number (counted from 1).
fn task_lines_of(content: &str) -> (r: Vec<(Option<u32>, String)>)
    ensures
        numbered_view(r@) == numbered_task_lines(lines_of(content@)),
{
    let ls = lines(content);
    let mut r: Vec<(Option<u32>, String)> = Vec::new();
    let mut i: usize = 0;
    assert(strings_view(ls@).take(0) =~= Seq::<Seq<char>>::empty());
    assert(numbered_view(r@) =~= Seq::<(Option<u32>, Seq<char>)>::empty());
    while i < ls.len()
        invariant
            i <= ls.len(),
            numbered_view(r@) == numbered_task_lines(strings_view(ls@).take(i as int)),
        decreases ls.len() - i,
    {
        let ghost before = r@;
        let ghost sv = strings_view(ls@);
        assert(sv.take(i + 1).drop_last() =~= sv.take(i as int));
        assert(sv.take(i + 1).last() == ls@[i as int]@);
        if task_line(ls[i].as_str()) {
            r.push((line_number_of(i), ls[i].clone()));
            assert(numbered_view(r@) =~= numbered_view(before).push(
                (line_number(i + 1), ls@[i as int]@),
            ));
        }
        i = i + 1;
    }
    assert(strings_view(ls@).take(i as int) =~= strings_view(ls@));
    r
}

impl Task {
    /// The task under the head task `head`: the head's status when it has
    /// none, the head's dates where it lacks them, the head's contexts after
    /// its own (see `inherit_spec`).
    pub fn inherit(self, head: &Task) -> (r: Task)
        ensures
            r@ == inherit_spec(self@, head@),
    {
        let mut t = self;
        let own_start = match &t.dates {
            Some(d) => clone_opt(&d.start),
            None => None,
        };
        let own_due = match &t.dates {
            Some(d) => clone_opt(&d.due),
            None => None,
        };
        let head_start = match &head.dates {
            Some(d) => clone_opt(&d.start),
            None => None,
        };
        let head_due = match &head.dates {
            Some(d) => clone_opt(&d.due),
            None => None,
        };
        let head_visible = match &head.dates {
            Some(d) => clone_opt(&d.visible),
            None => None,
        };
        let start = match own_start {
            Some(x) => Some(x),
            None => head_start,
        };
        let visible = match &own_due {
            Some(x) => Some(x.clone()),
            None => head_visible,
        };
        let due = match own_due {
            Some(x) => Some(x),
            None => head_due,
        };
        if t.status.same_as(&TaskStatus::NoStatus) {
            t.status = head.status.duplicate();
        }
        t.dates = if start.is_none() && due.is_none() && visible.is_none() {
            None
        } else {
            Some(TaskDates { start, due, visible })
        };
        let ghost own_contexts = t.contexts@;
        let ghost fixed = t;
        let mut i: usize = 0;
        while i < head.contexts.len()
            invariant
                i <= head.contexts.len(),
                t.status == fixed.status,
                t.dates == fixed.dates,
                t.description == fixed.description,
                t.project == fixed.project,
                t.file_path == fixed.file_path,
                t.line == fixed.line,
                t.contexts@ == own_contexts + head.contexts@.take(i as int),
            decreases head.contexts.len() - i,
        {
            t.contexts.push(head.contexts[i].clone());
            i = i + 1;
            assert(t.contexts@ =~= own_contexts + head.contexts@.take(i as int));
        }
        assert(head.contexts@.take(i as int) =~= head.contexts@);
        assert(strings_view(t.contexts@) =~= strings_view(own_contexts) + strings_view(
            head.contexts@,
        ));
        t
    }
}

fn clone_opt(o: &Option<String>) -> (r: Option<String>)
    ensures
        r == *o,
{
    match o {
        Some(s) => Some(s.clone()),
        None => None,
    }
}

/// The tasks of the file `file_name` at `file_path` with text `content`, in
/// line order (see `file_tasks_spec`); each task carries the file's name as
/// its project, the path, and its line number.
pub fn read_tasks(
    file_name: &str,
    file_path: &str,
    content: &str,
    statuses: &[String],
    filter: &TaskFilter,
) -> (r: Vec<Task>)
    requires
        valid_keys(strings_view(statuses@)),
    ensures
        tasks_view(r@) == file_tasks_spec(
            lines_of(content@),
            file_name@,
            file_path@,
            strings_view(statuses@),
            *filter,
        ),
{
    let nl = task_lines_of(content);
    let ghost nv = numbered_view(nl@);
    let ghost sv = strings_view(statuses@);
    let mut r: Vec<Task> = Vec::new();
    assert(tasks_view(r@) =~= Seq::<TaskModel>::empty());
    assert(nv.take(0) =~= Seq::<(Option<u32>, Seq<char>)>::empty());
    if nl.len() > 0 && gtd_line(nl[0].1.as_str()) {
        let head = Task::from(
            nl[0].1.as_str(),
            file_name,
            Some(String::from_str(file_path)),
            nl[0].0,
            statuses,
        );
        let mut j: usize = 0;
        while j < nl.len()
            invariant
                j <= nl.len(),
                nv == numbered_view(nl@),
                sv == strings_view(statuses@),
                valid_keys(sv),
                head@ == task_from_spec(nv[0].1, file_name@, Some(file_path@), nv[0].0, sv),
                tasks_view(r@) == gtd_tasks(nv.take(j as int), head@, file_name@, file_path@, sv),
            decreases nl.len() - j,
        {
            let ghost before = r@;
            assert(nv.take(j + 1).drop_last() =~= nv.take(j as int));
            assert(nv.take(j + 1).last() == (nl@[j as int].0, nl@[j as int].1@));
            if !gtd_line(nl[j].1.as_str()) {
                let t = Task::from(
                    nl[j].1.as_str(),
                    file_name,
                    Some(String::from_str(file_path)),
                    nl[j].0,
                    statuses,
                );
                let t = t.inherit(&head);
                r.push(t);
                assert(tasks_view(r@) =~= tasks_view(before).push(t@));
            }
            j = j + 1;
        }
        assert(nv.take(j as int) =~= nv);
    } else {
        let any = Task::re_any(statuses);
        let mut j: usize = 0;
        while j < nl.len()
            invariant
                j <= nl.len(),
                nv == numbered_view(nl@),
                sv == strings_view(statuses@),
                valid_keys(sv),
                any@ == TokenKind::AnyTask(sv),
                tasks_view(r@) == plain_tasks(nv.take(j as int), file_name@, file_path@, sv, *filter),
            decreases nl.len() - j,
        {
            let ghost before = r@;
            assert(nv.take(j + 1).drop_last() =~= nv.take(j as int));
            assert(nv.take(j + 1).last() == (nl@[j as int].0, nl@[j as int].1@));
            if any.is_match(nl[j].1.as_str()) {
                let t = Task::from(
                    nl[j].1.as_str(),
                    file_name,
                    Some(String::from_str(file_path)),
                    nl[j].0,
                    statuses,
                );
                if filter.keeps(&t) {
                    r.push(t);
                    assert(tasks_view(r@) =~= tasks_view(before).push(t@));
                }
            }
            j = j + 1;
        }
        assert(nv.take(j as int) =~= nv);
    }
    r
}

/// Every task line, read as a task.
pub open spec fn all_line_tasks(
    nl: Seq<(Option<u32>, Seq<char>)>,
    file_name: Seq<char>,
    path: Seq<char>,
    statuses: Seq<Seq<char>>,
) -> Seq<TaskModel> {
    nl.map_values(
        |l: (Option<u32>, Seq<char>)| task_from_spec(l.1, file_name, Some(path), l.0, statuses),
    )
}

/// Every task line of a file read as a task, with no line left out: the
/// reading used for the files that are always listed in full.
pub fn read_all_tasks(file_name: &str, file_path: &str, content: &str, statuses: &[String]) -> (r: Vec<Task>)
    ensures
        tasks_view(r@) == all_line_tasks(
            numbered_task_lines(lines_of(content@)),
            file_name@,
            file_path@,
            strings_view(statuses@),
        ),
{
    let nl = task_lines_of(content);
    let ghost nv = numbered_view(nl@);
    let ghost want = all_line_tasks(nv, file_name@, file_path@, strings_view(statuses@));
    let mut r: Vec<Task> = Vec::new();
    let mut j: usize = 0;
    assert(want.take(0) =~= tasks_view(r@));
    while j < nl.len()
        invariant
            j <= nl.len(),
            nv == numbered_view(nl@),
            want == all_line_tasks(nv, file_name@, file_path@, strings_view(statuses@)),
            tasks_view(r@) == want.take(j as int),
        decreases nl.len() - j,
    {
        let t = Task::from(
            nl[j].1.as_str(),
            file_name,
            Some(String::from_str(file_path)),
            nl[j].0,
            statuses,
        );
        let ghost before = r@;
        r.push(t);
        assert(nv[j as int] == (nl@[j as int].0, nl@[j as int].1@));
        assert(want[j as int] == t@);
        assert(tasks_view(r@) =~= tasks_view(before).push(t@));
        assert(want.take(j + 1) =~= want.take(j as int).push(want[j as int]));
        j = j + 1;
    }
    assert(want.take(j as int) =~= want);
    r
}

/// `f` occurs somewhere in `s`.
pub open spec fn contains_text(s: Seq<char>, f: Seq<char>) -> bool {
    exists|i: int| 0 <= i <= s.len() - f.len() && #[trigger] s.subrange(i, i + f.len()) == f
}

fn occurs_at(s: &Vec<char>, f: &Vec<char>, i: usize) -> (r: bool)
    requires
        i + f.len() <= s.len(),
    ensures
        r == (s@.subrange(i as int, i + f.len()) == f@),
{
    let mut k: usize = 0;
    while k < f.len()
        invariant
            k <= f.len(),
            i + f.len() <= s.len(),
            forall|q: int| 0 <= q < k ==> s@[i + q] == f@[q],
        decreases f.len() - k,
    {
        if s[i + k] != f[k] {
            assert(s@.subrange(i as int, i + f.len())[k as int] != f@[k as int]);
            return false;
        }
        k = k + 1;
    }
    assert(s@.subrange(i as int, i + f.len()) =~= f@);
    true
}

/// Whether the path contains one of the names of files always listed in
/// full.
pub fn is_always_file(path: &str, always_files: &Vec<String>) -> (r: bool)
    ensures
        r == exists|j: int| 0 <= j < always_files@.len() && contains_text(path@, #[trigger] always_files@[j]@),
{
    let s = crate::text::chars_of(path);
    let mut j: usize = 0;
    while j < always_files.len()
        invariant
            j <= always_files.len(),
            s@ == path@,
            forall|q: int| 0 <= q < j ==> !contains_text(path@, #[trigger] always_files@[q]@),
        decreases always_files.len() - j,
    {
        let f = crate::text::chars_of(always_files[j].as_str());
        if f.len() <= s.len() {
            let last = s.len() - f.len();
            let mut i: usize = 0;
            while i < last
                invariant
                    f.len() <= s.len(),
                    last == s.len() - f.len(),
                    j < always_files.len(),
                    s@ == path@,
                    f@ == always_files@[j as int]@,
                    i <= last,
                    forall|q: int| 0 <= q < i ==> #[trigger] s@.subrange(q, q + f.len()) != f@,
                decreases last - i,
            {
                if occurs_at(&s, &f, i) {
                    assert(contains_text(path@, always_files@[j as int]@));
                    return true;
                }
                i = i + 1;
            }
            if occurs_at(&s, &f, last) {
                assert(contains_text(path@, always_files@[j as int]@));
                return true;
            }
        }
        assert(!contains_text(path@, always_files@[j as int]@));
        j = j + 1;
    }
    false
}

proof fn lemma_plain_tasks_kept(
    nl: Seq<(Option<u32>, Seq<char>)>,
    file_name: Seq<char>,
    path: Seq<char>,
    statuses: Seq<Seq<char>>,
    f: TaskFilter,
)
    ensures
        forall|k: int|
            0 <= k < plain_tasks(nl, file_name, path, statuses, f).len() ==> f.keeps_model(
                #[trigger] plain_tasks(nl, file_name, path, statuses, f)[k],
            ),
    decreases nl.len(),
{
    if nl.len() > 0 {
        lemma_plain_tasks_kept(nl.drop_last(), file_name, path, statuses, f);
        let prev = plain_tasks(nl.drop_last(), file_name, path, statuses, f);
        let all = plain_tasks(nl, file_name, path, statuses, f);
        assert forall|k: int| 0 <= k < all.len() implies f.keeps_model(#[trigger] all[k]) by {
            if k < prev.len() {
                assert(all[k] == prev[k]);
            }
        }
    }
}

/// In a file whose first task line is not a `- @gtd` line, every listed task
/// is one that the filter keeps.
pub proof fn law_listed_tasks_pass_filter(
    lines: Seq<Seq<char>>,
    file_name: Seq<char>,
    path: Seq<char>,
    statuses: Seq<Seq<char>>,
    f: TaskFilter,
)
    requires
        !(numbered_task_lines(lines).len() > 0 && is_gtd_line(numbered_task_lines(lines)[0].1)),
    ensures
        forall|k: int|
            0 <= k < file_tasks_spec(lines, file_name, path, statuses, f).len() ==> f.keeps_model(
                #[trigger] file_tasks_spec(lines, file_name, path, statuses, f)[k],
            ),
{
    lemma_plain_tasks_kept(numbered_task_lines(lines), file_name, path, statuses, f);
}

proof fn lemma_gtd_tasks_inherit(
    nl: Seq<(Option<u32>, Seq<char>)>,
    head: TaskModel,
    file_name: Seq<char>,
    path: Seq<char>,
    statuses: Seq<Seq<char>>,
)
    ensures
        forall|k: int|
            0 <= k < gtd_tasks(nl, head, file_name, path, statuses).len() ==> {
                let t = #[trigger] gtd_tasks(nl, head, file_name, path, statuses)[k];
                &&& (head.status is Some ==> t.status is Some)
                &&& head.contexts.is_suffix_of(t.contexts)
            },
    decreases nl.len(),
{
    if nl.len() > 0 {
        lemma_gtd_tasks_inherit(nl.drop_last(), head, file_name, path, statuses);
        let prev = gtd_tasks(nl.drop_last(), head, file_name, path, statuses);
        let all = gtd_tasks(nl, head, file_name, path, statuses);
        assert forall|k: int| 0 <= k < all.len() implies {
            let t = #[trigger] all[k];
            &&& (head.status is Some ==> t.status is Some)
            &&& head.contexts.is_suffix_of(t.contexts)
        } by {
            if k < prev.len() {
                assert(all[k] == prev[k]);
            } else {
                let l = nl.last();
                let own = task_from_spec(l.1, file_name, Some(path), l.0, statuses);
                let t = inherit_spec(own, head);
                assert(all[k] == t);
                let cs = own.contexts + head.contexts;
                assert(cs.subrange(cs.len() - head.contexts.len(), cs.len() as int)
                    =~= head.contexts);
            }
        }
    }
}

/// In a file headed by a `- @gtd` line, every task carries the head's
/// contexts after its own, and has a status whenever the head has one.
pub proof fn law_gtd_tasks_inherit(
    lines: Seq<Seq<char>>,
    file_name: Seq<char>,
    path: Seq<char>,
    statuses: Seq<Seq<char>>,
    f: TaskFilter,
)
    requires
        numbered_task_lines(lines).len() > 0,
        is_gtd_line(numbered_task_lines(lines)[0].1),
    ensures
        ({
            let nl = numbered_task_lines(lines);
            let head = task_from_spec(nl[0].1, file_name, Some(path), nl[0].0, statuses);
            forall|k: int|
                0 <= k < file_tasks_spec(lines, file_name, path, statuses, f).len() ==> {
                    let t = #[trigger] file_tasks_spec(lines, file_name, path, statuses, f)[k];
                    &&& (head.status is Some ==> t.status is Some)
                    &&& head.contexts.is_suffix_of(t.contexts)
                }
        }),
{
    let nl = numbered_task_lines(lines);
    let head = task_from_spec(nl[0].1, file_name, Some(path), nl[0].0, statuses);
    lemma_gtd_tasks_inherit(nl, head, file_name, path, statuses);
}

proof fn lemma_gtd_tasks_file(
    nl: Seq<(Option<u32>, Seq<char>)>,
    head: TaskModel,
    file_name: Seq<char>,
    path: Seq<char>,
    statuses: Seq<Seq<char>>,
)
    ensures
        forall|k: int|
            0 <= k < gtd_tasks(nl, head, file_name, path, statuses).len() ==> {
                let t = #[trigger] gtd_tasks(nl, head, file_name, path, statuses)[k];
                t.project == file_name && t.file_path == Some(path)
            },
    decreases nl.len(),
{
    if nl.len() > 0 {
        lemma_gtd_tasks_file(nl.drop_last(), head, file_name, path, statuses);
        let prev = gtd_tasks(nl.drop_last(), head, file_name, path, statuses);
        let all = gtd_tasks(nl, head, file_name, path, statuses);
        assert forall|k: int| 0 <= k < all.len() implies {
            let t = #[trigger] all[k];
            t.project == file_name && t.file_path == Some(path)
        } by {
            if k < prev.len() {
                assert(all[k] == prev[k]);
            }
        }
    }
}

proof fn lemma_plain_tasks_file(
    nl: Seq<(Option<u32>, Seq<char>)>,
    file_name: Seq<char>,
    path: Seq<char>,
    statuses: Seq<Seq<char>>,
    f: TaskFilter,
)
    ensures
        forall|k: int|
            0 <= k < plain_tasks(nl, file_name, path, statuses, f).len() ==> {
                let t = #[trigger] plain_tasks(nl, file_name, path, statuses, f)[k];
                t.project == file_name && t.file_path == Some(path)
            },
    decreases nl.len(),
{
    if nl.len() > 0 {
        lemma_plain_tasks_file(nl.drop_last(), file_name, path, statuses, f);
        let prev = plain_tasks(nl.drop_last(), file_name, path, statuses, f);
        let all = plain_tasks(nl, file_name, path, statuses, f);
        assert forall|k: int| 0 <= k < all.len() implies {
            let t = #[trigger] all[k];
            t.project == file_name && t.file_path == Some(path)
        } by {
            if k < prev.len() {
                assert(all[k] == prev[k]);
            }
        }
    }
}

/// The file that holds a task is its project: every task read from a file
/// has the file's name as project and the file's path.
pub proof fn law_tasks_belong_to_their_file(
    lines: Seq<Seq<char>>,
    file_name: Seq<char>,
    path: Seq<char>,
    statuses: Seq<Seq<char>>,
    f: TaskFilter,
)
    ensures
        forall|k: int|
            0 <= k < file_tasks_spec(lines, file_name, path, statuses, f).len() ==> {
                let t = #[trigger] file_tasks_spec(lines, file_name, path, statuses, f)[k];
                t.project == file_name && t.file_path == Some(path)
            },
{
    let nl = numbered_task_lines(lines);
    if nl.len() > 0 && is_gtd_line(nl[0].1) {
        let head = task_from_spec(nl[0].1, file_name, Some(path), nl[0].0, statuses);
        lemma_gtd_tasks_file(nl, head, file_name, path, statuses);
    } else {
        lemma_plain_tasks_file(nl, file_name, path, statuses, f);
    }
}

/// The task lines that carry a status, a context or a date, read as tasks.
pub open spec fn flagged_tasks(
    nl: Seq<(Option<u32>, Seq<char>)>,
    file_name: Seq<char>,
    path: Seq<char>,
    statuses: Seq<Seq<char>>,
) -> Seq<TaskModel>
    decreases nl.len(),
{
    if nl.len() == 0 {
        Seq::empty()
    } else {
        let prev = flagged_tasks(nl.drop_last(), file_name, path, statuses);
        let l = nl.last();
        let t = task_from_spec(l.1, file_name, Some(path), l.0, statuses);
        if t.contexts.len() == 0 && t.status is None && t.dates is None {
            prev
        } else {
            prev.push(t)
        }
    }
}

/// In a file with no `- @gtd` head, listed without any filter, the tasks
/// are exactly the task lines that carry a status, a context or a date.
pub proof fn law_flagged_lines_are_the_tasks(
    lines: Seq<Seq<char>>,
    file_name: Seq<char>,
    path: Seq<char>,
    statuses: Seq<Seq<char>>,
    f: TaskFilter,
)
    requires
        !(numbered_task_lines(lines).len() > 0 && is_gtd_line(numbered_task_lines(lines)[0].1)),
        f.statuses@.len() == 0,
        f.contexts@.len() == 0,
        f.default_not_context@.len() == 0,
    ensures
        file_tasks_spec(lines, file_name, path, statuses, f) == flagged_tasks(
            numbered_task_lines(lines),
            file_name,
            path,
            statuses,
        ),
{
    lemma_plain_is_flagged(numbered_task_lines(lines), file_name, path, statuses, f);
}

proof fn lemma_plain_is_flagged(
    nl: Seq<(Option<u32>, Seq<char>)>,
    file_name: Seq<char>,
    path: Seq<char>,
    statuses: Seq<Seq<char>>,
    f: TaskFilter,
)
    requires
        f.statuses@.len() == 0,
        f.contexts@.len() == 0,
        f.default_not_context@.len() == 0,
    ensures
        plain_tasks(nl, file_name, path, statuses, f) == flagged_tasks(nl, file_name, path, statuses),
    decreases nl.len(),
{
    if nl.len() > 0 {
        let d = nl.drop_last();
        lemma_plain_is_flagged(d, file_name, path, statuses, f);
        let l = nl.last();
        let t = task_from_spec(l.1, file_name, Some(path), l.0, statuses);
        assert(!has_any_of(t.contexts, strings_view(f.default_not_context@)));
        if !has_token(l.1, TokenKind::AnyTask(statuses)) {
            crate::task::law_untokened_line_has_no_flags(l.1, statuses);
        }
    }
}

/// `t` is how the bullet `l` (its line number and text) of a file headed by
/// `head` is listed: it is not a `- @gtd` line; it keeps its own line number
/// and description; it keeps its own status, and takes the head's only when
/// it has none; it keeps its own due date (which is then also its
/// visible-from date), and takes the head's due and visible-from dates only
/// when it has no due date; it keeps its own start date, and takes the head's
/// only when it has none; its contexts are its own followed by the head's;
/// it has no dates at all exactly when it has none of the three.
#[verifier::opaque]
pub open spec fn listed_under_head(
    t: TaskModel,
    l: (Option<u32>, Seq<char>),
    head: TaskModel,
    statuses: Seq<Seq<char>>,
) -> bool {
    let own_status = classify_spec(l.1, statuses);
    let own_dates = dates_spec(l.1);
    &&& !is_gtd_line(l.1)
    &&& t.line == l.0
    &&& t.description == description_spec(l.1, statuses)
    &&& (own_status is Some ==> t.status == own_status)
    &&& (own_status is None ==> t.status == head.status)
    &&& match due_of(own_dates) {
        Some(d) => due_of(t.dates) == Some(d) && visible_of(t.dates) == Some(d),
        None => due_of(t.dates) == due_of(head.dates) && visible_of(t.dates) == visible_of(
            head.dates,
        ),
    }
    &&& match start_of(own_dates) {
        Some(d) => start_of(t.dates) == Some(d),
        None => start_of(t.dates) == start_of(head.dates),
    }
    &&& t.contexts == tokens(l.1, TokenKind::Context) + head.contexts
    &&& (t.dates is None <==> (start_of(t.dates) is None && due_of(t.dates) is None
        && visible_of(t.dates) is None))
}

/// `t` is one of the bullets of `nl`, listed under `head` (see
/// `listed_under_head`).
pub open spec fn listed_bullet(
    t: TaskModel,
    nl: Seq<(Option<u32>, Seq<char>)>,
    head: TaskModel,
    statuses: Seq<Seq<char>>,
) -> bool {
    exists|j: int| 0 <= j < nl.len() && #[trigger] listed_under_head(t, nl[j], head, statuses)
}

proof fn lemma_inherit_is_listed_under_head(
    l: (Option<u32>, Seq<char>),
    head: TaskModel,
    file_name: Seq<char>,
    path: Seq<char>,
    statuses: Seq<Seq<char>>,
)
    requires
        !is_gtd_line(l.1),
    ensures
        listed_under_head(
            inherit_spec(task_from_spec(l.1, file_name, Some(path), l.0, statuses), head),
            l,
            head,
            statuses,
        ),
{
    reveal(listed_under_head);
}

proof fn lemma_gtd_tasks_from_bullets(
    nl: Seq<(Option<u32>, Seq<char>)>,
    head: TaskModel,
    file_name: Seq<char>,
    path: Seq<char>,
    statuses: Seq<Seq<char>>,
)
    ensures
        forall|k: int|
            0 <= k < gtd_tasks(nl, head, file_name, path, statuses).len() ==> listed_bullet(
                #[trigger] gtd_tasks(nl, head, file_name, path, statuses)[k],
                nl,
                head,
                statuses,
            ),
        forall|j: int|
            #![trigger nl[j]]
            0 <= j < nl.len() && !is_gtd_line(nl[j].1) ==> exists|k: int|
                0 <= k < gtd_tasks(nl, head, file_name, path, statuses).len()
                    && #[trigger] listed_under_head(
                    gtd_tasks(nl, head, file_name, path, statuses)[k],
                    nl[j],
                    head,
                    statuses,
                ),
    decreases nl.len(),
{
    if nl.len() > 0 {
        let d = nl.drop_last();
        lemma_gtd_tasks_from_bullets(d, head, file_name, path, statuses);
        let prev = gtd_tasks(d, head, file_name, path, statuses);
        let l = nl.last();
        let last = nl.len() - 1;
        assert(nl[last] == l);
        if !is_gtd_line(l.1) {
            let own = task_from_spec(l.1, file_name, Some(path), l.0, statuses);
            assert(gtd_tasks(nl, head, file_name, path, statuses)[prev.len() as int] == inherit_spec(own, head));
            lemma_inherit_is_listed_under_head(l, head, file_name, path, statuses);
        }
        assert forall|k: int| 0 <= k < gtd_tasks(nl, head, file_name, path, statuses).len() implies listed_bullet(
            #[trigger] gtd_tasks(nl, head, file_name, path, statuses)[k],
            nl,
            head,
            statuses,
        ) by {
            if k < prev.len() {
                assert(gtd_tasks(nl, head, file_name, path, statuses)[k] == prev[k]);
                assert(listed_bullet(prev[k], d, head, statuses));
                let j = choose|j: int|
                    0 <= j < d.len() && #[trigger] listed_under_head(prev[k], d[j], head, statuses);
                assert(d[j] == nl[j]);
                assert(listed_under_head(prev[k], nl[j], head, statuses));
            } else {
                assert(!is_gtd_line(l.1));
                assert(k == prev.len());
                assert(listed_under_head(gtd_tasks(nl, head, file_name, path, statuses)[k], nl[last], head, statuses));
            }
        }
        assert forall|j: int| #![trigger nl[j]] 0 <= j < nl.len() && !is_gtd_line(nl[j].1) implies exists|k: int|
            0 <= k < gtd_tasks(nl, head, file_name, path, statuses).len() && #[trigger] listed_under_head(gtd_tasks(nl, head, file_name, path, statuses)[k], nl[j], head, statuses) by {
            if j < last {
                assert(d[j] == nl[j]);
                let k = choose|k: int|
                    0 <= k < prev.len() && #[trigger] listed_under_head(prev[k], d[j], head, statuses);
                assert(gtd_tasks(nl, head, file_name, path, statuses)[k] == prev[k]);
            } else {
                assert(listed_under_head(gtd_tasks(nl, head, file_name, path, statuses)[prev.len() as int], nl[j], head, statuses));
            }
        }
    } else {
        assert(gtd_tasks(nl, head, file_name, path, statuses).len() == 0);
    }
}

/// In a file headed by a `- @gtd` line, the listed tasks are the other
/// bullets, each listed as `listed_under_head` says: every listed task is one
/// of them, and every one of them is listed. In particular a bullet with a
/// due (or start) date of its own keeps it; the head's date is used only when
/// the bullet has none.
pub proof fn law_gtd_bullets_keep_their_own(
    lines: Seq<Seq<char>>,
    file_name: Seq<char>,
    path: Seq<char>,
    statuses: Seq<Seq<char>>,
    f: TaskFilter,
)
    requires
        numbered_task_lines(lines).len() > 0,
        is_gtd_line(numbered_task_lines(lines)[0].1),
    ensures
        ({
            let nl = numbered_task_lines(lines);
            let head = task_from_spec(nl[0].1, file_name, Some(path), nl[0].0, statuses);
            let ts = file_tasks_spec(lines, file_name, path, statuses, f);
            &&& forall|k: int| 0 <= k < ts.len() ==> listed_bullet(#[trigger] ts[k], nl, head, statuses)
            &&& forall|j: int|
                #![trigger nl[j]]
                0 <= j < nl.len() && !is_gtd_line(nl[j].1) ==> exists|k: int|
                    0 <= k < ts.len() && #[trigger] listed_under_head(ts[k], nl[j], head, statuses)
        }),
{
    let nl = numbered_task_lines(lines);
    let head = task_from_spec(nl[0].1, file_name, Some(path), nl[0].0, statuses);
    lemma_gtd_tasks_from_bullets(nl, head, file_name, path, statuses);
    assert(file_tasks_spec(lines, file_name, path, statuses, f) == gtd_tasks(
        nl,
        head,
        file_name,
        path,
        statuses,
    ));
}

/// A task that has no status, context or date is never listed.
pub open spec fn flagged(t: TaskModel) -> bool {
    !(t.contexts.len() == 0 && t.status is None && t.dates is None)
}

/// Each asked status is honoured: a task with a status, context or date
/// whose status is any one of the asked statuses is kept, when no context is
/// asked (and, for a task without a status, no context is hidden).
pub proof fn law_filter_keeps_every_asked_status(f: TaskFilter, t: TaskModel, k: int)
    requires
        flagged(t),
        0 <= k < f.statuses@.len(),
        f.statuses@[k]@ == t.status,
        f.contexts@.len() == 0,
        t.status is Some || f.default_not_context@.len() == 0,
    ensures
        f.keeps_model(t),
{
    assert(statuses_view(f.statuses@)[k] == t.status);
    if t.status is None {
        assert(!has_any_of(t.contexts, strings_view(f.default_not_context@)));
    }
}

/// When statuses are asked, a task whose status is none of them is dropped.
pub proof fn law_filter_drops_unasked_status(f: TaskFilter, t: TaskModel)
    requires
        f.statuses@.len() > 0,
        forall|k: int| 0 <= k < f.statuses@.len() ==> #[trigger] f.statuses@[k]@ != t.status,
    ensures
        !f.keeps_model(t),
{
    if statuses_view(f.statuses@).contains(t.status) {
        let k = choose|k: int| 0 <= k < statuses_view(f.statuses@).len() && statuses_view(f.statuses@)[k] == t.status;
        assert(f.statuses@[k]@ == t.status);
    }
}

/// Each asked context is honoured: a task that carries any one of the asked
/// contexts is kept when no status is asked and it has a status, context or
/// date (the contexts hidden by default do not apply once contexts are asked
/// through `TaskFilter::new`; here they are required not to hide it).
pub proof fn law_filter_keeps_every_asked_context(f: TaskFilter, t: TaskModel, i: int, k: int)
    requires
        flagged(t),
        f.statuses@.len() == 0,
        0 <= i < t.contexts.len(),
        0 <= k < f.contexts@.len(),
        f.contexts@[k]@ == t.contexts[i],
        t.status is Some || f.default_not_context@.len() == 0,
    ensures
        f.keeps_model(t),
{
    assert(strings_view(f.contexts@)[k] == t.contexts[i]);
    assert(has_any_of(t.contexts, strings_view(f.contexts@)));
    if t.status is None {
        assert(!has_any_of(t.contexts, strings_view(f.default_not_context@)));
    }
}

/// A task without a status, a context or a date is never listed.
pub proof fn law_filter_drops_unflagged(f: TaskFilter, t: TaskModel)
    requires
        !flagged(t),
    ensures
        !f.keeps_model(t),
{
}

/// When contexts are asked, a task that carries none of them is dropped.
pub proof fn law_filter_drops_task_without_asked_context(f: TaskFilter, t: TaskModel)
    requires
        f.contexts@.len() > 0,
        forall|i: int, k: int|
            0 <= i < t.contexts.len() && 0 <= k < f.contexts@.len() ==> #[trigger] f.contexts@[k]@
                != #[trigger] t.contexts[i],
    ensures
        !f.keeps_model(t),
{
    if has_any_of(t.contexts, strings_view(f.contexts@)) {
        let i = choose|i: int| 0 <= i < t.contexts.len() && strings_view(f.contexts@).contains(#[trigger] t.contexts[i]);
        let k = choose|k: int| 0 <= k < strings_view(f.contexts@).len() && strings_view(f.contexts@)[k] == t.contexts[i];
        assert(f.contexts@[k]@ == t.contexts[i]);
    }
}

/// The contexts hidden by default hide only tasks without a status: a task
/// with a status is kept when no status and no context is asked, whatever
/// its contexts.
pub proof fn law_filter_never_hides_a_status(f: TaskFilter, t: TaskModel)
    requires
        t.status is Some,
        f.statuses@.len() == 0,
        f.contexts@.len() == 0,
    ensures
        f.keeps_model(t),
{
}

/// A task without a status that carries one of the contexts hidden by default
/// is dropped.
pub proof fn law_filter_hides_statusless_in_hidden_context(f: TaskFilter, t: TaskModel, i: int, k: int)
    requires
        t.status is None,
        0 <= i < t.contexts.len(),
        0 <= k < f.default_not_context@.len(),
        f.default_not_context@[k]@ == t.contexts[i],
    ensures
        !f.keeps_model(t),
{
    assert(strings_view(f.default_not_context@)[k] == t.contexts[i]);
    assert(has_any_of(t.contexts, strings_view(f.default_not_context@)));
}

/// A file listed in full gives one task per bullet line, in order, none left
/// out: the `k`-th task is the `k`-th bullet line read as a task, with its
/// line number, whatever it carries.
pub proof fn law_full_listing_reads_every_bullet(
    lines: Seq<Seq<char>>,
    file_name: Seq<char>,
    path: Seq<char>,
    statuses: Seq<Seq<char>>,
)
    ensures
        ({
            let nl = numbered_task_lines(lines);
            let ts = all_line_tasks(nl, file_name, path, statuses);
            &&& ts.len() == nl.len()
            &&& forall|k: int|
                0 <= k < nl.len() ==> #[trigger] ts[k] == task_from_spec(
                    nl[k].1,
                    file_name,
                    Some(path),
                    nl[k].0,
                    statuses,
                )
        }),
{
}

} // verus!
