//! Dates: the `@d…`, `@s…`, `@b…`, `@v…` tokens of a task line.
use vstd::prelude::*;
use crate::pattern::{TaskPattern, TokenKind, is_date_kind, is_digit_char, strip, strip_chars, tokens, tokens_of};
use crate::text::{chars_of, collapse_to_string, collapse_ws, string_of, strings_view};

verus! {

/// The view of an optional string.
pub open spec fn opt_view(o: Option<String>) -> Option<Seq<char>> {
    match o {
        Some(s) => Some(s@),
        None => None,
    }
}

/// The dates of a task: start (`@s`), due (`@d`) and visible-from (`@v`);
/// `@b` sets both due and visible-from.
#[derive(Clone, PartialEq, Eq, Debug, Hash)]
pub struct TaskDates {
    pub start: Option<String>,
    pub due: Option<String>,
    pub visible: Option<String>,
}

/// `s` with every occurrence of the pair `a b` removed, left to right.
pub open spec fn remove_pair(s: Seq<char>, a: char, b: char) -> Seq<char>
    decreases s.len(),
{
    if s.len() == 0 {
        Seq::empty()
    } else if s.len() >= 2 && s[0] == a && s[1] == b {
        remove_pair(s.skip(2), a, b)
    } else {
        seq![s[0]] + remove_pair(s.drop_first(), a, b)
    }
}

/// The first date token that contains `c`, with `@c` removed from it.
pub open spec fn date_value(dates: Seq<Seq<char>>, c: char) -> Option<Seq<char>>
    decreases dates.len(),
{
    if dates.len() == 0 {
        None
    } else if dates[0].contains(c) {
        Some(remove_pair(dates[0], '@', c))
    } else {
        date_value(dates.drop_first(), c)
    }
}

pub open spec fn or_else(a: Option<Seq<char>>, b: Option<Seq<char>>) -> Option<Seq<char>> {
    match a {
        Some(x) => Some(x),
        None => b,
    }
}

/// The dates of a task line as (start, due, visible), read from its date
/// tokens; `None` when none of the three is given.
pub open spec fn dates_spec(task: Seq<char>) -> Option<
    (Option<Seq<char>>, Option<Seq<char>>, Option<Seq<char>>),
> {
    let found = tokens(task, TokenKind::Date);
    let start = date_value(found, 's');
    let both = date_value(found, 'b');
    let due = or_else(both, date_value(found, 'd'));
    let visible = or_else(both, date_value(found, 'v'));
    if start is None && due is None && visible is None {
        None
    } else {
        Some((start, due, visible))
    }
}

impl View for TaskDates {
    type V = (Option<Seq<char>>, Option<Seq<char>>, Option<Seq<char>>);

    open spec fn view(&self) -> Self::V {
        (opt_view(self.start), opt_view(self.due), opt_view(self.visible))
    }
}

pub open spec fn opt_dates_view(d: Option<TaskDates>) -> Option<
    (Option<Seq<char>>, Option<Seq<char>>, Option<Seq<char>>),
> {
    match d {
        Some(d) => Some(d@),
        None => None,
    }
}

fn contains_char(v: &Vec<char>, c: char) -> (r: bool)
    ensures
        r == v@.contains(c),
{
    let mut i: usize = 0;
    while i < v.len()
        invariant
            i <= v.len(),
            forall|k: int| 0 <= k < i ==> v@[k] != c,
        decreases v.len() - i,
    {
        if v[i] == c {
            assert(v@[i as int] == c);
            return true;
        }
        i = i + 1;
    }
    false
}

fn remove_pair_chars(v: &Vec<char>, a: char, b: char) -> (r: Vec<char>)
    ensures
        r@ == remove_pair(v@, a, b),
{
    let mut r: Vec<char> = Vec::new();
    let mut i: usize = 0;
    assert(v@.skip(0) =~= v@);
    assert(r@ + remove_pair(v@, a, b) =~= remove_pair(v@, a, b));
    while i < v.len()
        invariant
            i <= v.len(),
            r@ + remove_pair(v@.skip(i as int), a, b) == remove_pair(v@, a, b),
        decreases v.len() - i,
    {
        let ghost t = v@.skip(i as int);
        if v.len() - i >= 2 && v[i] == a && v[i + 1] == b {
            assert(t.skip(2) =~= v@.skip(i + 2));
            i = i + 2;
        } else {
            assert(t.drop_first() =~= v@.skip(i + 1));
            assert(r@.push(v[i as int]) + remove_pair(v@.skip(i + 1), a, b) =~= r@ + remove_pair(
                t,
                a,
                b,
            ));
            r.push(v[i]);
            i = i + 1;
        }
    }
    assert(v@.skip(i as int) =~= Seq::<char>::empty());
    assert(r@ + Seq::<char>::empty() =~= r@);
    r
}

impl TaskDates {
    /// The pattern of date tokens: `@`, one of `d s b v`, eight digits.
    pub fn re_date() -> (p: TaskPattern)
        ensures
            p@ == TokenKind::Date,
    {
        TaskPattern::Date
    }

    /// The first of `dates` that contains `c`, with `@c` removed from it.
    fn parse_date(dates: &Vec<String>, c: char) -> (r: Option<String>)
        ensures
            opt_view(r) == date_value(strings_view(dates@), c),
    {
        let mut i: usize = 0;
        assert(strings_view(dates@).skip(0) =~= strings_view(dates@));
        while i < dates.len()
            invariant
                i <= dates.len(),
                date_value(strings_view(dates@), c) == date_value(
                    strings_view(dates@).skip(i as int),
                    c,
                ),
            decreases dates.len() - i,
        {
            let ghost rest = strings_view(dates@).skip(i as int);
            assert(rest[0] == dates@[i as int]@);
            assert(rest.drop_first() =~= strings_view(dates@).skip(i + 1));
            let d = chars_of(dates[i].as_str());
            if contains_char(&d, c) {
                let value = remove_pair_chars(&d, '@', c);
                return Some(string_of(&value));
            }
            i = i + 1;
        }
        None
    }

    /// The dates of a task line: the start date is the first date token that
    /// contains `s`, the due date the first with `b` or else the first with
    /// `d`, the visible-from date the first with `b` or else the first with
    /// `v`, each without its `@` and kind character; `None` when none of the
    /// three is found.
    pub fn extract_dates(task: &str) -> (r: Option<TaskDates>)
        ensures
            opt_dates_view(r) == dates_spec(task@),
    {
        let v = chars_of(task);
        let dates = tokens_of(&v, &TaskDates::re_date());
        let start = TaskDates::parse_date(&dates, 's');
        let both = TaskDates::parse_date(&dates, 'b');
        let due = match &both {
            Some(b) => Some(b.clone()),
            None => TaskDates::parse_date(&dates, 'd'),
        };
        let visible = match &both {
            Some(b) => Some(b.clone()),
            None => TaskDates::parse_date(&dates, 'v'),
        };
        if start.is_none() && due.is_none() && visible.is_none() {
            None
        } else {
            Some(TaskDates { start, due, visible })
        }
    }

    /// The task text with every date token removed and every run of white
    /// space collapsed into one space.
    pub fn remove_date(task: &str) -> (r: String)
        ensures
            r@ == collapse_ws(strip(task@, TokenKind::Date)),
    {
        let v = chars_of(task);
        let stripped = strip_chars(&v, &TaskDates::re_date());
        collapse_to_string(&stripped)
    }
}

/// Eight ASCII digits, as in `20260407`.
pub open spec fn is_stamp(x: Seq<char>) -> bool {
    x.len() == 8 && forall|i: int| 0 <= i < 8 ==> is_digit_char(#[trigger] x[i])
}

pub open spec fn is_date_token(t: Seq<char>) -> bool {
    t.len() == 10 && t[0] == '@' && is_date_kind(t[1]) && forall|k: int|
        2 <= k < 10 ==> is_digit_char(#[trigger] t[k])
}

proof fn lemma_date_tokens_shape(t: Seq<char>)
    ensures
        forall|j: int|
            0 <= j < tokens(t, TokenKind::Date).len() ==> is_date_token(
                #[trigger] tokens(t, TokenKind::Date)[j],
            ),
    decreases t.len(),
{
    let p = TokenKind::Date;
    if t.len() > 0 {
        let n = p.len_at(t);
        let toks = tokens(t, p);
        if 0 < n <= t.len() {
            lemma_date_tokens_shape(t.skip(n));
            assert(n == 10);
            assert forall|j: int| 0 <= j < toks.len() implies is_date_token(#[trigger] toks[j]) by {
                if j > 0 {
                    assert(toks[j] == tokens(t.skip(n), p)[j - 1]);
                } else {
                    assert(toks[0] == t.take(10));
                }
            }
        } else {
            lemma_date_tokens_shape(t.drop_first());
            assert forall|j: int| 0 <= j < toks.len() implies is_date_token(#[trigger] toks[j]) by {
                assert(toks[j] == tokens(t.drop_first(), p)[j]);
            }
        }
    }
}

proof fn lemma_remove_pair_absent(s: Seq<char>, a: char, b: char)
    requires
        !s.contains(a),
    ensures
        remove_pair(s, a, b) == s,
    decreases s.len(),
{
    if s.len() > 0 {
        assert(s[0] != a);
        assert(!s.drop_first().contains(a)) by {
            if s.drop_first().contains(a) {
                let k = choose|k: int| 0 <= k < s.drop_first().len() && s.drop_first()[k] == a;
                assert(s[k + 1] == a);
            }
        }
        lemma_remove_pair_absent(s.drop_first(), a, b);
        assert(s =~= seq![s[0]] + s.drop_first());
    }
}

proof fn lemma_date_value_stamp(dates: Seq<Seq<char>>, c: char)
    requires
        c == 's' || c == 'b' || c == 'd' || c == 'v',
        forall|j: int| 0 <= j < dates.len() ==> is_date_token(#[trigger] dates[j]),
    ensures
        date_value(dates, c) matches Some(x) ==> is_stamp(x),
    decreases dates.len(),
{
    if dates.len() > 0 {
        let t = dates[0];
        assert(is_date_token(t));
        if t.contains(c) {
            let k = choose|k: int| 0 <= k < t.len() && t[k] == c;
            if k >= 2 {
                assert(is_digit_char(t[k]));
            }
            assert(k == 1);
            let d = t.skip(2);
            assert(!d.contains('@')) by {
                if d.contains('@') {
                    let q = choose|q: int| 0 <= q < d.len() && d[q] == '@';
                    assert(is_digit_char(t[q + 2]));
                }
            }
            lemma_remove_pair_absent(d, '@', c);
            assert forall|i: int| 0 <= i < 8 implies is_digit_char(#[trigger] d[i]) by {
                assert(d[i] == t[i + 2]);
            }
        } else {
            assert forall|j: int| 0 <= j < dates.drop_first().len() implies is_date_token(
                #[trigger] dates.drop_first()[j],
            ) by {
                assert(dates.drop_first()[j] == dates[j + 1]);
            }
            lemma_date_value_stamp(dates.drop_first(), c);
        }
    }
}

/// Every date read from a task line is a stamp of eight digits.
pub proof fn law_dates_are_stamps(task: Seq<char>)
    ensures
        dates_spec(task) matches Some((s, d, v)) ==> {
            &&& (s matches Some(x) ==> is_stamp(x))
            &&& (d matches Some(x) ==> is_stamp(x))
            &&& (v matches Some(x) ==> is_stamp(x))
        },
{
    let found = tokens(task, TokenKind::Date);
    lemma_date_tokens_shape(task);
    lemma_date_value_stamp(found, 's');
    lemma_date_value_stamp(found, 'b');
    lemma_date_value_stamp(found, 'd');
    lemma_date_value_stamp(found, 'v');
}

/// A `@b` date sets the due and the visible-from date alike.
pub proof fn law_both_date_sets_due_and_visible(task: Seq<char>)
    ensures
        date_value(tokens(task, TokenKind::Date), 'b') is Some ==> (dates_spec(task) matches Some(
            (s, d, v),
        ) && d == v && d == date_value(tokens(task, TokenKind::Date), 'b')),
{
}

} // verus!
