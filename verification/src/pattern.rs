//! The token grammar of task lines and the scanners that find, strip and
//! detect tokens.
//!
//! A task line may carry three kinds of tokens:
//! - a context: `#x` followed by one or more word characters
//!   (`[A-Za-z0-9_]`); adjacent contexts form one token, i.e. the token is
//!   `(#x[A-Za-z0-9_]+)+`;
//! - a date: `@`, one of the kind characters `d s b v`, then eight ASCII
//!   digits;
//! - a status: `@` followed by one of the declared status keys as a whole
//!   word, i.e. not followed by a key character (`@todos` holds no status
//!   for the key `todo`); where several keys fit at the same place, the one
//!   declared first wins.
//!
//! Tokens are found from left to right without overlap: at each position the
//! token that starts there (if any) is taken, and the scan resumes after it.
use vstd::prelude::*;
use crate::text::{string_of_range, strings_view};

verus! {

/// `[A-Za-z0-9_]`
pub open spec fn is_word_char(c: char) -> bool {
    ('A' <= c && c <= 'Z') || ('a' <= c && c <= 'z') || ('0' <= c && c <= '9') || c == '_'
}

/// `[0-9]`
pub open spec fn is_digit_char(c: char) -> bool {
    '0' <= c && c <= '9'
}

/// The characters that may follow `@` in a date token: `d`, `s`, `b`, `v`.
pub open spec fn is_date_kind(c: char) -> bool {
    c == 'd' || c == 's' || c == 'b' || c == 'v'
}

/// A status key that stands for itself inside the token grammar: ASCII
/// letters, digits, `_` and `-`.
pub open spec fn is_key_char(c: char) -> bool {
    is_word_char(c) || c == '-'
}

pub open spec fn valid_key(k: Seq<char>) -> bool {
    forall|i: int| 0 <= i < k.len() ==> is_key_char(#[trigger] k[i])
}

pub open spec fn valid_keys(keys: Seq<Seq<char>>) -> bool {
    forall|i: int| 0 <= i < keys.len() ==> valid_key(#[trigger] keys[i])
}

/// Number of leading word characters of `t`.
pub open spec fn word_run(t: Seq<char>) -> nat
    decreases t.len(),
{
    if t.len() > 0 && is_word_char(t[0]) {
        1 + word_run(t.drop_first())
    } else {
        0
    }
}

/// Length of the single context `#x[A-Za-z0-9_]+` at the start of `t`, or 0.
pub open spec fn context_unit_len(t: Seq<char>) -> int {
    if t.len() >= 3 && t[0] == '#' && t[1] == 'x' && is_word_char(t[2]) {
        2 + word_run(t.skip(2)) as int
    } else {
        0
    }
}

/// Length of the longest chain of contexts at the start of `t`, or 0.
pub open spec fn context_len(t: Seq<char>) -> int
    decreases t.len(),
{
    let n = context_unit_len(t);
    if 0 < n <= t.len() {
        n + context_len(t.skip(n))
    } else {
        0
    }
}

/// Length of the date token at the start of `t`, or 0.
pub open spec fn date_len(t: Seq<char>) -> int {
    if t.len() >= 10 && t[0] == '@' && is_date_kind(t[1]) && (forall|k: int|
        2 <= k < 10 ==> is_digit_char(#[trigger] t[k])) {
        10
    } else {
        0
    }
}

/// `k` starts `u` as a whole word: it is a prefix of `u` that is not
/// followed by a key character.
pub open spec fn word_at_start(k: Seq<char>, u: Seq<char>) -> bool {
    k.is_prefix_of(u) && (k.len() == u.len() || !is_key_char(u[k.len() as int]))
}

/// The first key (in declaration order) that starts `u` as a whole word.
pub open spec fn first_key_word(keys: Seq<Seq<char>>, u: Seq<char>) -> Option<Seq<char>>
    decreases keys.len(),
{
    if keys.len() == 0 {
        None
    } else if word_at_start(keys[0], u) {
        Some(keys[0])
    } else {
        first_key_word(keys.drop_first(), u)
    }
}

/// Length of the token `@key` at the start of `t` (the first key that follows
/// `@` as a whole word), or 0.
pub open spec fn key_token_len(keys: Seq<Seq<char>>, t: Seq<char>) -> int {
    if t.len() > 0 && t[0] == '@' {
        match first_key_word(keys, t.drop_first()) {
            Some(k) => 1 + k.len() as int,
            None => 0,
        }
    } else {
        0
    }
}

/// Length of the token that marks a line as worth reading as a task, at the
/// start of `t`, or 0: a context, a date, or `@key`, tried in this order.
pub open spec fn any_task_len(keys: Seq<Seq<char>>, t: Seq<char>) -> int {
    if context_unit_len(t) > 0 {
        context_unit_len(t)
    } else if date_len(t) > 0 {
        date_len(t)
    } else {
        key_token_len(keys, t)
    }
}

pub open spec fn keys_view(keys: Seq<Vec<char>>) -> Seq<Seq<char>> {
    keys.map_values(|k: Vec<char>| k@)
}

/// The kinds of tokens, as mathematical values.
pub enum TokenKind {
    /// Context tokens.
    Context,
    /// Date tokens.
    Date,
    /// `@key` for one of the keys as a whole word, the first such key winning.
    Status(Seq<Seq<char>>),
    /// Any context, date or `@key` token.
    AnyTask(Seq<Seq<char>>),
}

impl TokenKind {
    /// Length of the token of this kind at the start of `t` (0 when none).
    pub open spec fn len_at(self, t: Seq<char>) -> int {
        match self {
            TokenKind::Context => context_len(t),
            TokenKind::Date => date_len(t),
            TokenKind::Status(keys) => key_token_len(keys, t),
            TokenKind::AnyTask(keys) => any_task_len(keys, t),
        }
    }
}

/// A compiled token pattern.
pub enum TaskPattern {
    /// Context tokens.
    Context,
    /// Date tokens.
    Date,
    /// `@key` for one of `keys`.
    Status { keys: Vec<Vec<char>> },
    /// Any context, date or `@key` token (used to pick the lines to read).
    AnyTask { keys: Vec<Vec<char>> },
}

impl View for TaskPattern {
    type V = TokenKind;

    open spec fn view(&self) -> TokenKind {
        match self {
            TaskPattern::Context => TokenKind::Context,
            TaskPattern::Date => TokenKind::Date,
            TaskPattern::Status { keys } => TokenKind::Status(keys_view(keys@)),
            TaskPattern::AnyTask { keys } => TokenKind::AnyTask(keys_view(keys@)),
        }
    }
}

/// `t` with every token of `p` removed (left to right, without overlap).
pub open spec fn strip(t: Seq<char>, p: TokenKind) -> Seq<char>
    decreases t.len(),
{
    if t.len() == 0 {
        Seq::empty()
    } else {
        let n = p.len_at(t);
        if 0 < n <= t.len() {
            strip(t.skip(n), p)
        } else {
            seq![t[0]] + strip(t.drop_first(), p)
        }
    }
}

/// The tokens of `p` in `t`, left to right, without overlap.
pub open spec fn tokens(t: Seq<char>, p: TokenKind) -> Seq<Seq<char>>
    decreases t.len(),
{
    if t.len() == 0 {
        Seq::empty()
    } else {
        let n = p.len_at(t);
        if 0 < n <= t.len() {
            seq![t.take(n)] + tokens(t.skip(n), p)
        } else {
            tokens(t.drop_first(), p)
        }
    }
}

/// Some token of `p` starts somewhere in `t`.
pub open spec fn has_token(t: Seq<char>, p: TokenKind) -> bool {
    exists|i: int| 0 <= i < t.len() && p.len_at(#[trigger] t.skip(i)) > 0
}

fn word_char(c: char) -> (r: bool)
    ensures
        r == is_word_char(c),
{
    ('A' <= c && c <= 'Z') || ('a' <= c && c <= 'z') || ('0' <= c && c <= '9') || c == '_'
}

fn key_char(c: char) -> (r: bool)
    ensures
        r == is_key_char(c),
{
    word_char(c) || c == '-'
}

/// Index just past the run of word characters of `v` that starts at `i`.
fn run_end(v: &Vec<char>, i: usize) -> (j: usize)
    requires
        i <= v.len(),
    ensures
        i <= j <= v.len(),
        j - i == word_run(v@.skip(i as int)),
{
    let mut j = i;
    while j < v.len() && word_char(v[j])
        invariant
            i <= j <= v.len(),
            word_run(v@.skip(i as int)) == (j - i) + word_run(v@.skip(j as int)),
        decreases v.len() - j,
    {
        assert(v@.skip(j as int).drop_first() =~= v@.skip(j + 1));
        j = j + 1;
    }
    j
}

fn context_unit_at(v: &Vec<char>, i: usize) -> (n: usize)
    requires
        i <= v.len(),
    ensures
        n == context_unit_len(v@.skip(i as int)),
        n <= v.len() - i,
{
    if v.len() - i >= 3 && v[i] == '#' && v[i + 1] == 'x' && word_char(v[i + 2]) {
        let j = run_end(v, i + 2);
        assert(v@.skip(i as int).skip(2) =~= v@.skip(i + 2));
        j - i
    } else {
        0
    }
}

fn context_at(v: &Vec<char>, i: usize) -> (n: usize)
    requires
        i <= v.len(),
    ensures
        n == context_len(v@.skip(i as int)),
        n <= v.len() - i,
{
    let mut j = i;
    let mut u = context_unit_at(v, j);
    while u > 0
        invariant
            i <= j <= v.len(),
            u == context_unit_len(v@.skip(j as int)),
            u <= v.len() - j,
            context_len(v@.skip(i as int)) == (j - i) + context_len(v@.skip(j as int)),
        decreases v.len() - j,
    {
        assert(v@.skip(j as int).skip(u as int) =~= v@.skip(j + u));
        j = j + u;
        u = context_unit_at(v, j);
    }
    j - i
}

fn date_at(v: &Vec<char>, i: usize) -> (n: usize)
    requires
        i <= v.len(),
    ensures
        n == date_len(v@.skip(i as int)),
        n <= v.len() - i,
{
    let ghost t = v@.skip(i as int);
    if v.len() - i < 10 || v[i] != '@' {
        return 0;
    }
    let k = v[i + 1];
    if !(k == 'd' || k == 's' || k == 'b' || k == 'v') {
        return 0;
    }
    let mut m: usize = 2;
    while m < 10
        invariant
            2 <= m <= 10,
            i + 10 <= v.len(),
            t == v@.skip(i as int),
            forall|k: int| 2 <= k < m ==> is_digit_char(#[trigger] t[k]),
        decreases 10 - m,
    {
        let c = v[i + m];
        if !('0' <= c && c <= '9') {
            assert(!is_digit_char(t[m as int]));
            return 0;
        }
        m = m + 1;
    }
    10
}

/// Whether `k` is a prefix of `v[i..]`.
fn prefix_at(k: &Vec<char>, v: &Vec<char>, i: usize) -> (r: bool)
    requires
        i <= v.len(),
    ensures
        r == k@.is_prefix_of(v@.skip(i as int)),
{
    let ghost u = v@.skip(i as int);
    if k.len() > v.len() - i {
        return false;
    }
    let mut m: usize = 0;
    while m < k.len()
        invariant
            m <= k.len(),
            i + k.len() <= v.len(),
            u == v@.skip(i as int),
            forall|q: int| 0 <= q < m ==> k@[q] == #[trigger] u[q],
        decreases k.len() - m,
    {
        if k[m] != v[i + m] {
            assert(k@[m as int] != u.subrange(0, k@.len() as int)[m as int]);
            return false;
        }
        m = m + 1;
    }
    assert(k@ =~= u.subrange(0, k@.len() as int));
    true
}

/// The first of `keys` that starts `v[i..]` as a whole word.
fn key_word_at(keys: &Vec<Vec<char>>, v: &Vec<char>, i: usize) -> (r: Option<usize>)
    requires
        i <= v.len(),
    ensures
        match r {
            Some(j) => {
                &&& j < keys.len()
                &&& first_key_word(keys_view(keys@), v@.skip(i as int)) == Some(keys@[j as int]@)
                &&& keys@[j as int]@.len() <= v.len() - i
            },
            None => first_key_word(keys_view(keys@), v@.skip(i as int)) is None,
        },
{
    let ghost u = v@.skip(i as int);
    let mut j: usize = 0;
    assert(keys_view(keys@).skip(0) =~= keys_view(keys@));
    while j < keys.len()
        invariant
            j <= keys.len(),
            i <= v.len(),
            u == v@.skip(i as int),
            first_key_word(keys_view(keys@), u) == first_key_word(
                keys_view(keys@).skip(j as int),
                u,
            ),
        decreases keys.len() - j,
    {
        let ghost rest = keys_view(keys@).skip(j as int);
        assert(rest[0] == keys@[j as int]@);
        assert(rest.drop_first() =~= keys_view(keys@).skip(j + 1));
        if prefix_at(&keys[j], v, i) {
            let e = i + keys[j].len();
            assert(e == v.len() || v@[e as int] == u[keys@[j as int]@.len() as int]);
            if e == v.len() || !key_char(v[e]) {
                return Some(j);
            }
        }
        j = j + 1;
    }
    None
}

impl TaskPattern {
    /// Length of the token of this pattern that starts at `v[i]` (0 when none).
    pub fn match_len_at(&self, v: &Vec<char>, i: usize) -> (n: usize)
        requires
            i <= v.len(),
        ensures
            n == self@.len_at(v@.skip(i as int)),
            n <= v.len() - i,
    {
        match self {
            TaskPattern::Context => context_at(v, i),
            TaskPattern::Date => date_at(v, i),
            TaskPattern::Status { keys } => key_token_at(keys, v, i),
            TaskPattern::AnyTask { keys } => {
                let c = context_unit_at(v, i);
                if c > 0 {
                    c
                } else {
                    let d = date_at(v, i);
                    if d > 0 {
                        d
                    } else {
                        key_token_at(keys, v, i)
                    }
                }
            },
        }
    }
}

fn key_token_at(keys: &Vec<Vec<char>>, v: &Vec<char>, i: usize) -> (n: usize)
    requires
        i <= v.len(),
    ensures
        n == key_token_len(keys_view(keys@), v@.skip(i as int)),
        n <= v.len() - i,
{
    if i < v.len() && v[i] == '@' {
        assert(v@.skip(i as int).drop_first() =~= v@.skip(i + 1));
        match key_word_at(keys, v, i + 1) {
            Some(j) => 1 + keys[j].len(),
            None => 0,
        }
    } else {
        0
    }
}

/// `v` with every token of `p` removed.
pub fn strip_chars(v: &Vec<char>, p: &TaskPattern) -> (r: Vec<char>)
    ensures
        r@ == strip(v@, p@),
{
    let mut r: Vec<char> = Vec::new();
    let mut i: usize = 0;
    assert(v@.skip(0) =~= v@);
    assert(r@ + strip(v@, p@) =~= strip(v@, p@));
    while i < v.len()
        invariant
            i <= v.len(),
            r@ + strip(v@.skip(i as int), p@) == strip(v@, p@),
        decreases v.len() - i,
    {
        let n = p.match_len_at(v, i);
        let ghost t = v@.skip(i as int);
        if n > 0 {
            assert(t.skip(n as int) =~= v@.skip(i + n));
            i = i + n;
        } else {
            assert(t.drop_first() =~= v@.skip(i + 1));
            assert(r@.push(v[i as int]) + strip(v@.skip(i + 1), p@) =~= r@ + strip(t, p@));
            r.push(v[i]);
            i = i + 1;
        }
    }
    assert(v@.skip(i as int) =~= Seq::<char>::empty());
    assert(r@ + Seq::<char>::empty() =~= r@);
    r
}

/// The tokens of `p` in `v`, left to right.
pub fn tokens_of(v: &Vec<char>, p: &TaskPattern) -> (r: Vec<String>)
    ensures
        strings_view(r@) == tokens(v@, p@),
{
    let mut r: Vec<String> = Vec::new();
    let mut i: usize = 0;
    assert(v@.skip(0) =~= v@);
    assert(strings_view(r@) + tokens(v@, p@) =~= tokens(v@, p@));
    while i < v.len()
        invariant
            i <= v.len(),
            strings_view(r@) + tokens(v@.skip(i as int), p@) == tokens(v@, p@),
        decreases v.len() - i,
    {
        let n = p.match_len_at(v, i);
        let ghost t = v@.skip(i as int);
        if n > 0 {
            let s = string_of_range(v, i, i + n);
            assert(t.skip(n as int) =~= v@.skip(i + n));
            assert(t.take(n as int) =~= s@);
            let ghost old_r = r@;
            r.push(s);
            assert(strings_view(r@) =~= strings_view(old_r).push(s@));
            assert(strings_view(r@) + tokens(v@.skip(i + n), p@) =~= strings_view(old_r)
                + tokens(t, p@));
            i = i + n;
        } else {
            assert(t.drop_first() =~= v@.skip(i + 1));
            i = i + 1;
        }
    }
    assert(v@.skip(i as int) =~= Seq::<char>::empty());
    assert(strings_view(r@) + Seq::<Seq<char>>::empty() =~= strings_view(r@));
    r
}

/// The first token of `p` in `v`, as the range it occupies.
pub fn first_token(v: &Vec<char>, p: &TaskPattern) -> (r: Option<(usize, usize)>)
    ensures
        match r {
            Some((a, b)) => a < b <= v.len() && tokens(v@, p@).len() > 0 && tokens(v@, p@)[0]
                == v@.subrange(a as int, b as int),
            None => tokens(v@, p@).len() == 0,
        },
{
    let mut i: usize = 0;
    assert(v@.skip(0) =~= v@);
    while i < v.len()
        invariant
            i <= v.len(),
            tokens(v@.skip(i as int), p@) == tokens(v@, p@),
        decreases v.len() - i,
    {
        let n = p.match_len_at(v, i);
        let ghost t = v@.skip(i as int);
        if n > 0 {
            assert(t.take(n as int) =~= v@.subrange(i as int, i + n));
            return Some((i, i + n));
        }
        assert(t.drop_first() =~= v@.skip(i + 1));
        i = i + 1;
    }
    None
}

/// Whether some token of `p` occurs in `v`.
pub fn contains_token(v: &Vec<char>, p: &TaskPattern) -> (r: bool)
    ensures
        r == has_token(v@, p@),
{
    let mut i: usize = 0;
    while i < v.len()
        invariant
            i <= v.len(),
            forall|k: int| 0 <= k < i ==> p@.len_at(#[trigger] v@.skip(k)) <= 0,
        decreases v.len() - i,
    {
        if p.match_len_at(v, i) > 0 {
            return true;
        }
        i = i + 1;
    }
    false
}

impl TaskPattern {
    /// Whether some token of this pattern occurs in `text`.
    pub fn is_match(&self, text: &str) -> (r: bool)
        ensures
            r == has_token(text@, self@),
    {
        let v = crate::text::chars_of(text);
        contains_token(&v, self)
    }
}

/// A text without tokens of a kind is left as it is by removing them.
pub proof fn law_strip_without_tokens(t: Seq<char>, p: TokenKind)
    requires
        tokens(t, p).len() == 0,
    ensures
        strip(t, p) == t,
    decreases t.len(),
{
    if t.len() > 0 {
        let n = p.len_at(t);
        if 0 < n <= t.len() {
            assert(tokens(t, p).len() > 0);
        } else {
            law_strip_without_tokens(t.drop_first(), p);
            assert(t =~= seq![t[0]] + t.drop_first());
        }
    }
}

pub proof fn lemma_context_len_nonneg(t: Seq<char>)
    ensures
        context_len(t) >= 0,
    decreases t.len(),
{
    let n = context_unit_len(t);
    if 0 < n <= t.len() {
        lemma_context_len_nonneg(t.skip(n));
    }
}

/// Every context token starts with `#x` and a word character.
pub proof fn law_context_tokens_shape(t: Seq<char>)
    ensures
        forall|j: int|
            0 <= j < tokens(t, TokenKind::Context).len() ==> {
                let c = #[trigger] tokens(t, TokenKind::Context)[j];
                c.len() >= 3 && c[0] == '#' && c[1] == 'x' && is_word_char(c[2])
            },
    decreases t.len(),
{
    let p = TokenKind::Context;
    if t.len() > 0 {
        let n = p.len_at(t);
        let toks = tokens(t, p);
        if 0 < n <= t.len() {
            law_context_tokens_shape(t.skip(n));
            assert(context_unit_len(t) > 0);
            assert forall|j: int| 0 <= j < toks.len() implies {
                let c = #[trigger] toks[j];
                c.len() >= 3 && c[0] == '#' && c[1] == 'x' && is_word_char(c[2])
            } by {
                if j > 0 {
                    assert(toks[j] == tokens(t.skip(n), p)[j - 1]);
                } else {
                    assert(toks[0] == t.take(n));
                    lemma_context_len_nonneg(t.skip(context_unit_len(t)));
                    assert(n >= context_unit_len(t));
                }
            }
        } else {
            law_context_tokens_shape(t.drop_first());
            assert forall|j: int| 0 <= j < toks.len() implies {
                let c = #[trigger] toks[j];
                c.len() >= 3 && c[0] == '#' && c[1] == 'x' && is_word_char(c[2])
            } by {
                assert(toks[j] == tokens(t.drop_first(), p)[j]);
            }
        }
    }
}

} // verus!
