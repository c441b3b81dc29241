//! Task statuses: the `@word` tokens of a task line that are declared as
//! status keys, and their textual forms.
use vstd::prelude::*;
use crate::pattern::{
    TaskPattern, TokenKind, first_key_word, first_token, word_at_start, keys_view, strip, strip_chars, tokens,
    valid_keys,
};
use crate::text::{
    chars_of, chars_of_each, collapse_to_string, collapse_ws, same_chars, string_of, strings_view,
};

verus! {

/// A task status. `NoStatus` means that no status token was present (or the
/// explicit `@noStatus` was); `Status(key)` holds the word after `@`.
#[derive(Clone, PartialEq, Eq, Debug, Hash)]
pub enum TaskStatus {
    NoStatus,
    Status(String),
}

impl View for TaskStatus {
    /// `None` for `NoStatus`, `Some(key)` for `Status(key)`.
    type V = Option<Seq<char>>;

    open spec fn view(&self) -> Option<Seq<char>> {
        match self {
            TaskStatus::NoStatus => None,
            TaskStatus::Status(key) => Some(key@),
        }
    }
}

/// The reserved key `noStatus`.
pub open spec fn no_status_key() -> Seq<char> {
    seq!['n', 'o', 'S', 't', 'a', 't', 'u', 's']
}

/// `@noStatus`
pub open spec fn no_status_token() -> Seq<char> {
    seq!['@'] + no_status_key()
}

/// `NoStatus`, the name of the empty status in JSON.
pub open spec fn no_status_name() -> Seq<char> {
    seq!['N', 'o', 'S', 't', 'a', 't', 'u', 's']
}

/// The keys recognised after `@`: the declared ones, then `noStatus` unless
/// it was declared.
pub open spec fn status_keys(statuses: Seq<Seq<char>>) -> Seq<Seq<char>> {
    if statuses.contains(no_status_key()) {
        statuses
    } else {
        statuses.push(no_status_key())
    }
}

pub open spec fn status_kind(statuses: Seq<Seq<char>>) -> TokenKind {
    TokenKind::Status(status_keys(statuses))
}

/// The status that a token `@key` stands for.
pub open spec fn token_status(token: Seq<char>) -> Option<Seq<char>> {
    if token == no_status_token() {
        None
    } else {
        Some(token.drop_first())
    }
}

/// The status of a task line: that of its first status token, if any.
/// Where a declared key is not a plain word no status pattern exists, and
/// the line has no status.
pub open spec fn classify_spec(task: Seq<char>, statuses: Seq<Seq<char>>) -> Option<Seq<char>> {
    let found = tokens(task, status_kind(statuses));
    if !valid_keys(statuses) || found.len() == 0 {
        None
    } else {
        token_status(found[0])
    }
}

/// A task line with its status tokens removed and white space collapsed;
/// where a declared key is not a plain word, the line unchanged.
pub open spec fn remove_status_spec(task: Seq<char>, statuses: Seq<Seq<char>>) -> Seq<char> {
    if valid_keys(statuses) {
        collapse_ws(strip(task, status_kind(statuses)))
    } else {
        task
    }
}

/// What a status text parses to: `@noStatus` and `NoStatus` give the empty
/// status, `@key` gives `key`, anything else is refused.
pub open spec fn parse_status(s: Seq<char>) -> Option<Option<Seq<char>>> {
    if s == no_status_token() || s == no_status_name() {
        Some(None)
    } else if s.len() > 0 && s[0] == '@' {
        Some(Some(s.drop_first()))
    } else {
        None
    }
}

/// The display form: `@noStatus` or `@key`.
pub open spec fn status_text(st: Option<Seq<char>>) -> Seq<char> {
    match st {
        None => no_status_token(),
        Some(key) => seq!['@'] + key,
    }
}

/// The JSON form: `NoStatus` or the bare key.
pub open spec fn status_name(st: Option<Seq<char>>) -> Seq<char> {
    match st {
        None => no_status_name(),
        Some(key) => key,
    }
}

/// What a JSON status name reads as.
pub open spec fn status_from_name(raw: Seq<char>) -> Option<Seq<char>> {
    match parse_status(raw) {
        Some(st) => st,
        None => Some(raw),
    }
}

/// The terminal colour in which a status is shown.
#[derive(Clone, Copy, PartialEq, Eq, Debug)]
pub enum TermColor {
    Black,
    Green,
    Yellow,
    Red,
}

/// A status text with the colour it is shown in.
pub struct ColoredStatus {
    pub text: String,
    pub color: TermColor,
}

pub open spec fn todo_key() -> Seq<char> {
    seq!['t', 'o', 'd', 'o']
}

pub open spec fn review_key() -> Seq<char> {
    seq!['r', 'e', 'v', 'i', 'e', 'w']
}

pub open spec fn status_color(st: Option<Seq<char>>) -> TermColor {
    match st {
        None => TermColor::Black,
        Some(key) => if key == todo_key() {
            TermColor::Green
        } else if key == review_key() {
            TermColor::Yellow
        } else {
            TermColor::Red
        },
    }
}

fn no_status_key_chars() -> (v: Vec<char>)
    ensures
        v@ == no_status_key(),
{
    let v = vec!['n', 'o', 'S', 't', 'a', 't', 'u', 's'];
    assert(v@ =~= no_status_key());
    v
}

fn no_status_name_chars() -> (v: Vec<char>)
    ensures
        v@ == no_status_name(),
{
    let v = vec!['N', 'o', 'S', 't', 'a', 't', 'u', 's'];
    assert(v@ =~= no_status_name());
    v
}

impl TaskStatus {
    /// Whether two statuses are the same.
    pub fn same_as(&self, other: &TaskStatus) -> (r: bool)
        ensures
            r == (self@ == other@),
    {
        match self {
            TaskStatus::NoStatus => match other {
                TaskStatus::NoStatus => true,
                TaskStatus::Status(_) => false,
            },
            TaskStatus::Status(a) => match other {
                TaskStatus::NoStatus => false,
                TaskStatus::Status(b) => a.eq(b),
            },
        }
    }

    /// An equal status, as a new value.
    pub fn duplicate(&self) -> (r: TaskStatus)
        ensures
            r == *self,
    {
        match self {
            TaskStatus::NoStatus => TaskStatus::NoStatus,
            TaskStatus::Status(key) => TaskStatus::Status(key.clone()),
        }
    }

    /// The status read from its text: `@noStatus` or `NoStatus` give
    /// `NoStatus`, `@key` gives `Status(key)`; any other text is refused with
    /// the message `Not a status token: <text>`.
    pub fn from_str(s: &str) -> (r: Result<TaskStatus, String>)
        ensures
            match parse_status(s@) {
                Some(st) => r matches Ok(status) && status@ == st,
                None => r matches Err(msg) && msg@ == "Not a status token: "@ + s@,
            },
    {
        let v = chars_of(s);
        let at_no_status = {
            let mut t = vec!['@'];
            let mut k = no_status_key_chars();
            t.append(&mut k);
            t
        };
        assert(at_no_status@ =~= no_status_token());
        if same_chars(&v, &at_no_status) || same_chars(&v, &no_status_name_chars()) {
            Ok(TaskStatus::NoStatus)
        } else if v.len() > 0 && v[0] == '@' {
            let mut key = String::new();
            let rest = crate::text::string_of_range(&v, 1, v.len());
            assert(rest@ =~= v@.drop_first());
            key.append(rest.as_str());
            Ok(TaskStatus::Status(key))
        } else {
            let mut msg = String::from_str("Not a status token: ");
            msg.append(s);
            Err(msg)
        }
    }

    /// The display form: `@noStatus` or `@key`.
    pub fn to_string(&self) -> (r: String)
        ensures
            r@ == status_text(self@),
    {
        let mut r = String::from_str("@");
        proof {
            reveal_strlit("@");
        }
        match self {
            TaskStatus::NoStatus => {
                let k = string_of(&no_status_key_chars());
                r.append(k.as_str());
            },
            TaskStatus::Status(key) => {
                r.append(key.as_str());
            },
        }
        assert(r@ =~= status_text(self@));
        r
    }

    /// The name under which the status is written in JSON: `NoStatus` or the
    /// bare key.
    pub fn json_name(&self) -> (r: String)
        ensures
            r@ == status_name(self@),
    {
        match self {
            TaskStatus::NoStatus => string_of(&no_status_name_chars()),
            TaskStatus::Status(key) => key.clone(),
        }
    }

    /// The status that a JSON name reads as: a status text if it is one
    /// (see `from_str`), otherwise the raw name taken as a key.
    pub fn from_json_name(raw: &str) -> (r: TaskStatus)
        ensures
            r@ == status_from_name(raw@),
    {
        match TaskStatus::from_str(raw) {
            Ok(st) => st,
            Err(_) => TaskStatus::Status(String::from_str(raw)),
        }
    }

    /// The status text with its colour: black for no status, green for
    /// `todo`, yellow for `review`, red for any other key.
    pub fn to_color_str(&self) -> (r: ColoredStatus)
        ensures
            r.text@ == status_text(self@),
            r.color == status_color(self@),
    {
        let text = self.to_string();
        let color = match self {
            TaskStatus::NoStatus => TermColor::Black,
            TaskStatus::Status(key) => {
                let k = chars_of(key.as_str());
                let todo = vec!['t', 'o', 'd', 'o'];
                let review = vec!['r', 'e', 'v', 'i', 'e', 'w'];
                assert(todo@ =~= todo_key());
                assert(review@ =~= review_key());
                if same_chars(&k, &todo) {
                    TermColor::Green
                } else if same_chars(&k, &review) {
                    TermColor::Yellow
                } else {
                    TermColor::Red
                }
            },
        };
        ColoredStatus { text, color }
    }

    /// The pattern of the status tokens for the declared `statuses`: `@key`
    /// for each declared key, then `@noStatus` unless it was declared. There
    /// is none where a key is not a plain word.
    fn re_status(statuses: &[String]) -> (p: Option<TaskPattern>)
        ensures
            p is Some <==> valid_keys(strings_view(statuses@)),
            p matches Some(q) ==> q@ == status_kind(strings_view(statuses@)),
    {
        if !valid_status_keys(statuses) {
            return None;
        }
        let mut keys = chars_of_each(statuses);
        assert(keys_view(keys@) =~= strings_view(statuses@));
        let ns = no_status_key_chars();
        let mut present = false;
        let mut i: usize = 0;
        while i < keys.len()
            invariant
                i <= keys.len(),
                keys_view(keys@) == strings_view(statuses@),
                ns@ == no_status_key(),
                present == (exists|k: int| 0 <= k < i && keys@[k]@ == no_status_key()),
            decreases keys.len() - i,
        {
            let hit = same_chars(&keys[i], &ns);
            if hit {
                present = true;
            }
            proof {
                if !hit {
                    assert forall|k: int| 0 <= k < i + 1 && keys@[k]@ == no_status_key() implies k
                        < i by {}
                }
            }
            i = i + 1;
        }
        proof {
            let sv = strings_view(statuses@);
            if present {
                let k = choose|k: int| 0 <= k < keys@.len() && keys@[k]@ == no_status_key();
                assert(sv[k] == no_status_key());
            } else {
                assert(!sv.contains(no_status_key())) by {
                    if sv.contains(no_status_key()) {
                        let k = choose|k: int| 0 <= k < sv.len() && sv[k] == no_status_key();
                        assert(keys@[k]@ == no_status_key());
                    }
                }
            }
        }
        if !present {
            let ghost before = keys@;
            keys.push(ns);
            assert(keys_view(keys@) =~= keys_view(before).push(no_status_key()));
        }
        Some(TaskPattern::Status { keys })
    }

    /// The task text with every status token removed and every run of white
    /// space collapsed into one space; the text unchanged where a declared
    /// key is not a plain word.
    pub fn remove_status_str(task: &str, statuses: &[String]) -> (r: String)
        ensures
            r@ == remove_status_spec(task@, strings_view(statuses@)),
    {
        let p = match TaskStatus::re_status(statuses) {
            Some(p) => p,
            None => return String::from_str(task),
        };
        let v = chars_of(task);
        let stripped = strip_chars(&v, &p);
        collapse_to_string(&stripped)
    }

    /// The status of a task line: that of its first status token, or
    /// `NoStatus` when it has none or a declared key is not a plain word.
    pub fn classify(task: &str, statuses: &[String]) -> (r: TaskStatus)
        ensures
            r@ == classify_spec(task@, strings_view(statuses@)),
    {
        let p = match TaskStatus::re_status(statuses) {
            Some(p) => p,
            None => return TaskStatus::NoStatus,
        };
        let v = chars_of(task);
        match first_token(&v, &p) {
            None => TaskStatus::NoStatus,
            Some((a, b)) => {
                let token = crate::text::string_of_range(&v, a, b);
                match TaskStatus::from_str(token.as_str()) {
                    Ok(st) => {
                        proof {
                            lemma_status_token_shape(task@, status_keys(strings_view(statuses@)));
                        }
                        st
                    },
                    Err(_) => {
                        proof {
                            lemma_status_token_shape(task@, status_keys(strings_view(statuses@)));
                        }
                        TaskStatus::NoStatus
                    },
                }
            },
        }
    }
}

/// `token` is `@` followed by one of `keys`.
pub open spec fn is_key_token(token: Seq<char>, keys: Seq<Seq<char>>) -> bool {
    token.len() > 0 && token[0] == '@' && keys.contains(token.drop_first())
}

/// Whether every declared status key is made of ASCII letters, digits, `_`
/// and `-` only.
pub fn valid_status_keys(statuses: &[String]) -> (r: bool)
    ensures
        r == valid_keys(strings_view(statuses@)),
{
    let mut i: usize = 0;
    while i < statuses.len()
        invariant
            i <= statuses@.len(),
            forall|k: int| 0 <= k < i ==> crate::pattern::valid_key(#[trigger] statuses@[k]@),
        decreases statuses@.len() - i,
    {
        let k = chars_of(statuses[i].as_str());
        let mut j: usize = 0;
        while j < k.len()
            invariant
                j <= k.len(),
                i < statuses@.len(),
                k@ == statuses@[i as int]@,
                forall|q: int| 0 <= q < j ==> crate::pattern::is_key_char(#[trigger] k@[q]),
            decreases k.len() - j,
        {
            let c = k[j];
            if !(('A' <= c && c <= 'Z') || ('a' <= c && c <= 'z') || ('0' <= c && c <= '9') || c
                == '_' || c == '-') {
                assert(!crate::pattern::is_key_char(k@[j as int]));
                assert(!valid_keys(strings_view(statuses@))) by {
                    assert(strings_view(statuses@)[i as int] == k@);
                }
                return false;
            }
            j = j + 1;
        }
        assert(crate::pattern::valid_key(statuses@[i as int]@));
        i = i + 1;
    }
    assert forall|q: int| 0 <= q < strings_view(statuses@).len() implies crate::pattern::valid_key(
        #[trigger] strings_view(statuses@)[q],
    ) by {
        assert(strings_view(statuses@)[q] == statuses@[q]@);
    }
    true
}

/// The key found by `first_key_word` is one of the keys, and starts `u` as a
/// whole word.
pub proof fn lemma_first_key_word(keys: Seq<Seq<char>>, u: Seq<char>)
    ensures
        first_key_word(keys, u) matches Some(k) ==> keys.contains(k) && word_at_start(k, u),
    decreases keys.len(),
{
    if keys.len() > 0 && !word_at_start(keys[0], u) {
        lemma_first_key_word(keys.drop_first(), u);
        if let Some(k) = first_key_word(keys.drop_first(), u) {
            let i = choose|i: int| 0 <= i < keys.drop_first().len() && keys.drop_first()[i] == k;
            assert(keys[i + 1] == k);
        }
    } else if keys.len() > 0 {
        assert(keys[0] == keys[0]);
    }
}

/// Every status token is `@` followed by one of the keys.
pub proof fn lemma_status_token_shape(t: Seq<char>, keys: Seq<Seq<char>>)
    ensures
        forall|j: int|
            0 <= j < tokens(t, TokenKind::Status(keys)).len() ==> is_key_token(
                #[trigger] tokens(t, TokenKind::Status(keys))[j],
                keys,
            ),
    decreases t.len(),
{
    let p = TokenKind::Status(keys);
    if t.len() > 0 {
        let n = p.len_at(t);
        let toks = tokens(t, p);
        if 0 < n <= t.len() {
            lemma_status_token_shape(t.skip(n), keys);
            lemma_first_key_word(keys, t.drop_first());
            let k = first_key_word(keys, t.drop_first()).unwrap();
            assert(t.take(n).drop_first() =~= k);
            assert forall|j: int| 0 <= j < toks.len() implies is_key_token(
                #[trigger] toks[j],
                keys,
            ) by {
                if j > 0 {
                    assert(toks[j] == tokens(t.skip(n), p)[j - 1]);
                }
            }
        } else {
            lemma_status_token_shape(t.drop_first(), keys);
            assert forall|j: int| 0 <= j < toks.len() implies is_key_token(
                #[trigger] toks[j],
                keys,
            ) by {
                assert(toks[j] == tokens(t.drop_first(), p)[j]);
            }
        }
    }
}

/// The status of a task line is one of the declared keys, and never the
/// reserved `noStatus`.
pub proof fn law_classify_declared(task: Seq<char>, statuses: Seq<Seq<char>>)
    ensures
        classify_spec(task, statuses) matches Some(k) ==> statuses.contains(k) && k
            != no_status_key(),
{
    let keys = status_keys(statuses);
    let found = tokens(task, status_kind(statuses));
    lemma_status_token_shape(task, keys);
    if found.len() > 0 {
        let tok = found[0];
        assert(is_key_token(tok, keys));
        if tok != no_status_token() {
            let k = tok.drop_first();
            if k == no_status_key() {
                assert(tok =~= no_status_token());
            }
            if !statuses.contains(no_status_key()) {
                let i = choose|i: int| 0 <= i < keys.len() && keys[i] == k;
                if i < statuses.len() {
                    assert(statuses[i] == k);
                }
            }
        }
    }
}

/// The display form of a status reads back as that status, except for a key
/// `noStatus`, whose display form is that of the empty status.
pub proof fn law_status_text_roundtrip(st: Option<Seq<char>>)
    requires
        st != Some(no_status_key()),
    ensures
        parse_status(status_text(st)) == Some(st),
{
    match st {
        None => {},
        Some(k) => {
            let t = status_text(st);
            assert(t.drop_first() =~= k);
            if t == no_status_token() {
                assert(k =~= no_status_token().drop_first());
                assert(no_status_token().drop_first() =~= no_status_key());
            }
            assert(t != no_status_name()) by {
                if t == no_status_name() {
                    assert(t[0] == 'N');
                }
            }
        },
    }
}

/// The JSON name of a status reads back as that status, except for keys
/// that are themselves status texts (`NoStatus`, or starting with `@`).
pub proof fn law_json_name_roundtrip(st: Option<Seq<char>>)
    requires
        st matches Some(k) ==> k != no_status_name() && !(k.len() > 0 && k[0] == '@'),
    ensures
        status_from_name(status_name(st)) == st,
{
    match st {
        None => {
            assert(no_status_name() != no_status_token()) by {
                assert(no_status_name()[0] != no_status_token()[0]);
            }
        },
        Some(k) => {
            if k == no_status_token() {
                assert(k[0] == '@');
            }
        },
    }
}

} // verus!
