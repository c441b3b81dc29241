//! Tasks: a task line read into its description, status, contexts and dates.
use vstd::prelude::*;
use crate::context::TaskContext;
use crate::dates::{TaskDates, dates_spec, opt_dates_view, opt_view};
use crate::pattern::{TaskPattern, TokenKind, context_unit_len, first_key_word, has_token, word_at_start, keys_view, strip, tokens, valid_keys};
use crate::status::{
    TaskStatus, classify_spec, lemma_first_key_word, no_status_token, remove_status_spec, status_keys,
    status_kind, token_status,
};
use crate::text::{chars_of, chars_of_each, collapse_to_string, collapse_ws, strings_view};

verus! {

/// A task read from a line of a Markdown file.
#[derive(Clone, PartialEq, Eq, Debug, Hash)]
pub struct Task {
    pub description: String,
    pub project: String,
    pub status: TaskStatus,
    pub contexts: Vec<String>,
    pub dates: Option<TaskDates>,
    pub file_path: Option<String>,
    pub line: Option<u32>,
}

/// A task as mathematical values.
pub struct TaskModel {
    pub description: Seq<char>,
    pub project: Seq<char>,
    pub status: Option<Seq<char>>,
    pub contexts: Seq<Seq<char>>,
    pub dates: Option<(Option<Seq<char>>, Option<Seq<char>>, Option<Seq<char>>)>,
    pub file_path: Option<Seq<char>>,
    pub line: Option<u32>,
}

impl View for Task {
    type V = TaskModel;

    open spec fn view(&self) -> TaskModel {
        TaskModel {
            description: self.description@,
            project: self.project@,
            status: self.status@,
            contexts: strings_view(self.contexts@),
            dates: opt_dates_view(self.dates),
            file_path: opt_view(self.file_path),
            line: self.line,
        }
    }
}

/// The description of a task line: the line without its status tokens,
/// then without its context tokens, then without its date tokens, white
/// space collapsed after each step. Where a declared key is not a plain word
/// no status token is removed (and the first step leaves the line as it is).
pub open spec fn description_spec(task: Seq<char>, statuses: Seq<Seq<char>>) -> Seq<char> {
    let no_status = remove_status_spec(task, statuses);
    let no_contexts = collapse_ws(strip(no_status, TokenKind::Context));
    collapse_ws(strip(no_contexts, TokenKind::Date))
}

/// `desc` followed by ` <open>c<close>` for each context `c`.
pub open spec fn with_contexts(
    desc: Seq<char>,
    contexts: Seq<Seq<char>>,
    open: Seq<char>,
    close: Seq<char>,
) -> Seq<char>
    decreases contexts.len(),
{
    if contexts.len() == 0 {
        desc
    } else {
        with_contexts(desc, contexts.drop_last(), open, close) + seq![' '] + open
            + contexts.last() + close
    }
}

/// The task that a line stands for.
pub open spec fn task_from_spec(
    task: Seq<char>,
    project: Seq<char>,
    file_path: Option<Seq<char>>,
    line: Option<u32>,
    statuses: Seq<Seq<char>>,
) -> TaskModel {
    TaskModel {
        description: description_spec(task, statuses),
        project,
        status: classify_spec(task, statuses),
        contexts: tokens(task, TokenKind::Context),
        dates: dates_spec(task),
        file_path,
        line,
    }
}

fn clone_opt(o: &Option<String>) -> (r: Option<String>)
    ensures
        r == *o,
{
    match o {
        Some(s) => Some(s.clone()),
        None => None,
    }
}

impl Task {
    pub open spec fn no_flags(self) -> bool {
        self@.contexts.len() == 0 && self@.status is None && self@.dates is None
    }

    /// The pattern of the tokens that make a line worth reading as a task: a
    /// context (`#x` and a word character `[A-Za-z0-9_]`), a date (`@`, one of
    /// `d s b v`, eight digits), or `@key` for a declared key as a whole word.
    pub fn re_any(statuses: &[String]) -> (p: TaskPattern)
        requires
            valid_keys(strings_view(statuses@)),
        ensures
            p@ == TokenKind::AnyTask(strings_view(statuses@)),
    {
        let keys = chars_of_each(statuses);
        assert(keys_view(keys@) =~= strings_view(statuses@));
        TaskPattern::AnyTask { keys }
    }

    /// Reads a task line: its status, contexts and dates, and its description
    /// without any of those tokens.
    pub fn from(
        task: &str,
        project: &str,
        file_path: Option<String>,
        line: Option<u32>,
        statuses: &[String],
    ) -> (r: Task)
        ensures
            r@ == task_from_spec(task@, project@, opt_view(file_path), line, strings_view(statuses@)),
    {
        let status = TaskStatus::classify(task, statuses);
        let contexts = TaskContext::extract_contexts(task);
        let dates = TaskDates::extract_dates(task);
        let no_status = TaskStatus::remove_status_str(task, statuses);
        let no_contexts = TaskContext::remove_context_string(no_status.as_str());
        let description = TaskDates::remove_date(no_contexts.as_str());
        Task {
            project: String::from_str(project),
            description,
            status,
            contexts,
            dates,
            file_path,
            line,
        }
    }

    /// Whether the task has no context, no status and no dates.
    pub fn has_noflags(&self) -> (r: bool)
        ensures
            r == self.no_flags(),
    {
        self.contexts.len() == 0 && match self.status {
            TaskStatus::NoStatus => true,
            TaskStatus::Status(_) => false,
        } && self.dates.is_none()
    }

    /// The line shown when tasks are listed by context: the project (between
    /// `open` and `close`, the markers that emphasise it), a space and the
    /// description, white space collapsed.
    pub fn ctx_line(&self, open: &str, close: &str) -> (r: String)
        ensures
            r@ == collapse_ws(open@ + self.project@ + close@ + seq![' '] + self.description@),
    {
        let mut s = String::from_str(open);
        s.append(self.project.as_str());
        s.append(close);
        s.append(" ");
        proof {
            reveal_strlit(" ");
        }
        s.append(self.description.as_str());
        assert(s@ =~= open@ + self.project@ + close@ + seq![' '] + self.description@);
        let v = chars_of(s.as_str());
        collapse_to_string(&v)
    }

    /// The line shown for a task: the description followed by each context
    /// (between `open` and `close`, the markers that colour it), white space
    /// collapsed.
    pub fn display_line(&self, open: &str, close: &str) -> (r: String)
        ensures
            r@ == collapse_ws(
                with_contexts(self.description@, strings_view(self.contexts@), open@, close@),
            ),
    {
        let mut s = self.description.clone();
        let mut i: usize = 0;
        while i < self.contexts.len()
            invariant
                i <= self.contexts.len(),
                s@ == with_contexts(
                    self.description@,
                    strings_view(self.contexts@).take(i as int),
                    open@,
                    close@,
                ),
            decreases self.contexts.len() - i,
        {
            proof {
                let cs = strings_view(self.contexts@);
                assert(cs.take(i + 1).drop_last() =~= cs.take(i as int));
                assert(cs.take(i + 1).last() == self.contexts@[i as int]@);
                reveal_strlit(" ");
            }
            s.append(" ");
            s.append(open);
            s.append(self.contexts[i].as_str());
            s.append(close);
            i = i + 1;
        }
        assert(strings_view(self.contexts@).take(i as int) =~= strings_view(self.contexts@));
        let v = chars_of(s.as_str());
        collapse_to_string(&v)
    }

    /// An equal task, as a new value.
    pub fn duplicate(&self) -> (r: Task)
        ensures
            r@ == self@,
    {
        let mut contexts: Vec<String> = Vec::new();
        let mut i: usize = 0;
        while i < self.contexts.len()
            invariant
                i <= self.contexts.len(),
                contexts@ == self.contexts@.take(i as int),
            decreases self.contexts.len() - i,
        {
            contexts.push(self.contexts[i].clone());
            i = i + 1;
            assert(contexts@ =~= self.contexts@.take(i as int));
        }
        assert(contexts@ =~= self.contexts@);
        assert(strings_view(contexts@) =~= strings_view(self.contexts@));
        let dates = match &self.dates {
            None => None,
            Some(d) => Some(
                TaskDates {
                    start: clone_opt(&d.start),
                    due: clone_opt(&d.due),
                    visible: clone_opt(&d.visible),
                },
            ),
        };
        Task {
            description: self.description.clone(),
            project: self.project.clone(),
            status: self.status.duplicate(),
            contexts,
            dates,
            file_path: clone_opt(&self.file_path),
            line: self.line,
        }
    }
}

/// The first token of a kind starts at some position of the text.
pub proof fn lemma_first_token_at(t: Seq<char>, p: TokenKind)
    requires
        tokens(t, p).len() > 0,
    ensures
        exists|i: int|
            0 <= i < t.len() && p.len_at(#[trigger] t.skip(i)) > 0 && p.len_at(t.skip(i)) <= t.len()
                - i && tokens(t, p)[0] == t.skip(i).take(p.len_at(t.skip(i))),
    decreases t.len(),
{
    let n = p.len_at(t);
    if 0 < n <= t.len() {
        assert(t.skip(0) =~= t);
    } else {
        lemma_first_token_at(t.drop_first(), p);
        let i = choose|i: int|
            0 <= i < t.drop_first().len() && p.len_at(#[trigger] t.drop_first().skip(i)) > 0
                && p.len_at(t.drop_first().skip(i)) <= t.drop_first().len() - i && tokens(
                t.drop_first(),
                p,
            )[0] == t.drop_first().skip(i).take(p.len_at(t.drop_first().skip(i)));
        assert(t.drop_first().skip(i) =~= t.skip(i + 1));
    }
}

/// A key that starts `u` as a whole word makes some key match `u`.
proof fn lemma_some_key_word(keys: Seq<Seq<char>>, k: Seq<char>, u: Seq<char>)
    requires
        keys.contains(k),
        word_at_start(k, u),
    ensures
        first_key_word(keys, u) is Some,
    decreases keys.len(),
{
    if !word_at_start(keys[0], u) {
        let i = choose|i: int| 0 <= i < keys.len() && keys[i] == k;
        assert(i > 0);
        assert(keys.drop_first()[i - 1] == k);
        lemma_some_key_word(keys.drop_first(), k, u);
    }
}

/// A line without any token of the task-line pattern (`Task::re_any`) has
/// no status, no context and no dates: skipping such lines drops no task.
pub proof fn law_untokened_line_has_no_flags(line: Seq<char>, statuses: Seq<Seq<char>>)
    requires
        !has_token(line, TokenKind::AnyTask(statuses)),
    ensures
        classify_spec(line, statuses) is None,
        tokens(line, TokenKind::Context).len() == 0,
        dates_spec(line) is None,
{
    let any = TokenKind::AnyTask(statuses);
    let keys = status_keys(statuses);
    let sk = status_kind(statuses);
    if tokens(line, sk).len() > 0 {
        lemma_first_token_at(line, sk);
        let i = choose|i: int|
            0 <= i < line.len() && sk.len_at(#[trigger] line.skip(i)) > 0 && tokens(line, sk)[0]
                == line.skip(i).take(sk.len_at(line.skip(i)));
        let t = line.skip(i);
        let u = t.drop_first();
        lemma_first_key_word(keys, u);
        let k = first_key_word(keys, u).unwrap();
        let tok = tokens(line, sk)[0];
        assert(tok.drop_first() =~= k);
        if token_status(tok) is Some {
            assert(k != crate::status::no_status_key()) by {
                if k == crate::status::no_status_key() {
                    assert(tok =~= no_status_token());
                }
            }
            assert(statuses.contains(k)) by {
                if !statuses.contains(crate::status::no_status_key()) {
                    let q = choose|q: int| 0 <= q < keys.len() && keys[q] == k;
                    if q < statuses.len() {
                        assert(statuses[q] == k);
                    }
                }
            }
            lemma_some_key_word(statuses, k, u);
            assert(any.len_at(line.skip(i)) > 0);
            assert(false);
        }
    }
    let dk = TokenKind::Date;
    if tokens(line, dk).len() > 0 {
        lemma_first_token_at(line, dk);
        let i = choose|i: int|
            0 <= i < line.len() && dk.len_at(#[trigger] line.skip(i)) > 0 && tokens(line, dk)[0]
                == line.skip(i).take(dk.len_at(line.skip(i)));
        assert(any.len_at(line.skip(i)) > 0);
        assert(false);
    }
    let ck = TokenKind::Context;
    if tokens(line, ck).len() > 0 {
        lemma_first_token_at(line, ck);
        let i = choose|i: int|
            0 <= i < line.len() && ck.len_at(#[trigger] line.skip(i)) > 0 && tokens(line, ck)[0]
                == line.skip(i).take(ck.len_at(line.skip(i)));
        assert(context_unit_len(line.skip(i)) > 0);
        assert(any.len_at(line.skip(i)) > 0);
        assert(false);
    }
}

/// Every line that reads as a task with a status, a context or a date holds
/// a token of the task-line pattern (`Task::re_any`).
pub proof fn law_flagged_line_matches_line_pattern(
    line: Seq<char>,
    project: Seq<char>,
    file_path: Option<Seq<char>>,
    number: Option<u32>,
    statuses: Seq<Seq<char>>,
)
    ensures
        ({
            let t = task_from_spec(line, project, file_path, number, statuses);
            !(t.contexts.len() == 0 && t.status is None && t.dates is None)
        }) ==> has_token(line, TokenKind::AnyTask(statuses)),
{
    if !has_token(line, TokenKind::AnyTask(statuses)) {
        law_untokened_line_has_no_flags(line, statuses);
    }
}

} // verus!
