//! Contexts: the `#x…` tokens of a task line.
use vstd::prelude::*;
use crate::pattern::{
    TaskPattern, TokenKind, context_len, context_unit_len, is_word_char, strip, strip_chars, tokens,
    tokens_of, word_run,
};
use crate::text::{
    chars_of, collapse_from, collapse_to_string, collapse_ws, is_white_space, law_collapse_single_spaced,
    strings_view,
};
use crate::pattern::law_strip_without_tokens;

verus! {

/// A context token, such as `#xhome`.
pub struct TaskContext(pub String);

impl TaskContext {
    fn re_context() -> (p: TaskPattern)
        ensures
            p@ == TokenKind::Context,
    {
        TaskPattern::Context
    }

    /// The context tokens of a task line, left to right; adjacent contexts
    /// (`#xa#xb`) form one token.
    pub fn extract_contexts(task: &str) -> (r: Vec<String>)
        ensures
            strings_view(r@) == tokens(task@, TokenKind::Context),
    {
        let v = chars_of(task);
        tokens_of(&v, &TaskContext::re_context())
    }

    /// The task text with every context token removed and every run of white
    /// space collapsed into one space.
    pub fn remove_context_string(task: &str) -> (r: String)
        ensures
            r@ == collapse_ws(strip(task@, TokenKind::Context)),
    {
        let v = chars_of(task);
        let stripped = strip_chars(&v, &TaskContext::re_context());
        collapse_to_string(&stripped)
    }
}

/// A context starts at position `j` of `s`: `#`, `x` and a word character.
pub open spec fn context_starts_at(s: Seq<char>, j: int) -> bool {
    0 <= j && j + 2 < s.len() && s[j] == '#' && s[j + 1] == 'x' && is_word_char(s[j + 2])
}

/// No context starts anywhere in `s`.
pub open spec fn no_context_start(s: Seq<char>) -> bool {
    forall|j: int| 0 <= j < s.len() ==> !#[trigger] context_starts_at(s, j)
}

proof fn lemma_word_run_end(t: Seq<char>)
    ensures
        word_run(t) <= t.len(),
        word_run(t) == t.len() || !is_word_char(t[word_run(t) as int]),
    decreases t.len(),
{
    if t.len() > 0 && is_word_char(t[0]) {
        lemma_word_run_end(t.drop_first());
        if word_run(t.drop_first()) < t.drop_first().len() {
            assert(t[word_run(t) as int] == t.drop_first()[word_run(t.drop_first()) as int]);
        }
    }
}

/// Where a chain of contexts ends, no context starts and the character
/// there (if any) is not a word character.
proof fn lemma_chain_end(u: Seq<char>)
    requires
        context_len(u) > 0,
    ensures
        context_len(u) <= u.len(),
        context_len(u) == u.len() || !is_word_char(u[context_len(u)]),
        context_unit_len(u.skip(context_len(u))) == 0,
    decreases u.len(),
{
    let n1 = context_unit_len(u);
    let rest = u.skip(n1);
    lemma_word_run_end(u.skip(2));
    if context_len(rest) > 0 {
        lemma_chain_end(rest);
        assert(u.skip(context_len(u)) =~= rest.skip(context_len(rest)));
        if context_len(rest) < rest.len() {
            assert(u[context_len(u)] == rest[context_len(rest)]);
        }
    } else {
        crate::pattern::lemma_context_len_nonneg(rest);
        assert(context_len(u) == n1);
        if n1 < u.len() {
            assert(u[n1] == u.skip(2)[word_run(u.skip(2)) as int]);
        }
        lemma_word_run_end(rest.skip(2));
        if context_unit_len(rest) > 0 {
            assert(0 < context_unit_len(rest) <= rest.len());
            crate::pattern::lemma_context_len_nonneg(rest.skip(context_unit_len(rest)));
            assert(context_len(rest) > 0);
        }
    }
}

/// After removing contexts, no context starts anywhere.
proof fn lemma_strip_no_context_start(t: Seq<char>)
    ensures
        no_context_start(strip(t, TokenKind::Context)),
    decreases t.len(),
{
    let p = TokenKind::Context;
    if t.len() > 0 {
        let n = p.len_at(t);
        if 0 < n <= t.len() {
            lemma_strip_no_context_start(t.skip(n));
        } else {
            let u = t.drop_first();
            lemma_strip_no_context_start(u);
            let r2 = strip(u, p);
            let r = strip(t, p);
            assert(r == seq![t[0]] + r2);
            assert forall|j: int| 0 <= j < r.len() implies !#[trigger] context_starts_at(r, j) by {
                if j > 0 {
                    assert(!context_starts_at(r2, j - 1));
                } else if context_starts_at(r, 0) {
                    // the first characters of the rest come from `t` itself
                    lemma_word_run_end(t.skip(2));
                    let nu = p.len_at(u);
                    if 0 < nu <= u.len() {
                        lemma_chain_end(u);
                        let w = u.skip(nu);
                        if w.len() > 0 {
                            assert(w[0] == u[nu]);
                        }
                        assert(r2 == strip(w, p));
                        lemma_strip_head(w);
                        assert(false);
                    } else {
                        assert(r2 == seq![u[0]] + strip(u.drop_first(), p));
                        assert(t[1] == 'x');
                        let v = u.drop_first();
                        assert(v =~= t.skip(2));
                        let nv = p.len_at(v);
                        if 0 < nv <= v.len() {
                            lemma_chain_end(v);
                            let w = v.skip(nv);
                            if w.len() > 0 {
                                assert(w[0] == v[nv]);
                            }
                            lemma_strip_head(w);
                            assert(strip(v, p) == strip(v.skip(nv), p));
                            assert(r2[1] == strip(v, p)[0]);
                            assert(false);
                        } else {
                            assert(strip(v, p) == seq![v[0]] + strip(v.drop_first(), p));
                            assert(is_word_char(t[2]));
                            assert(context_unit_len(t) > 0);
                            assert(context_unit_len(t) <= t.len());
                            crate::pattern::lemma_context_len_nonneg(t.skip(context_unit_len(t)));
                            assert(context_len(t) > 0);
                            lemma_chain_end(t);
                            assert(false);
                        }
                    }
                }
            }
        }
    }
}

/// At a place where no context starts, removal keeps the first character,
/// which is not a word character.
proof fn lemma_strip_head(w: Seq<char>)
    requires
        context_unit_len(w) == 0,
        w.len() > 0 ==> !is_word_char(w[0]),
    ensures
        strip(w, TokenKind::Context).len() > 0 ==> !is_word_char(strip(w, TokenKind::Context)[0]),
{
    if w.len() > 0 {
        assert(TokenKind::Context.len_at(w) == 0);
        assert(strip(w, TokenKind::Context) == seq![w[0]] + strip(w.drop_first(), TokenKind::Context));
    }
}

/// Collapsing white space starts no context.
proof fn lemma_collapse_no_context_start(s: Seq<char>, after_ws: bool)
    requires
        no_context_start(s),
    ensures
        no_context_start(collapse_from(s, after_ws)),
    decreases s.len(),
{
    if s.len() > 0 {
        let u = s.drop_first();
        assert(no_context_start(u)) by {
            assert forall|j: int| 0 <= j < u.len() implies !#[trigger] context_starts_at(u, j) by {
                assert(!context_starts_at(s, j + 1));
            }
        }
        let ws = is_white_space(s[0]);
        lemma_collapse_no_context_start(u, ws);
        let r = collapse_from(s, after_ws);
        let r2 = collapse_from(u, ws);
        if !(ws && after_ws) {
            let c = if ws { ' ' } else { s[0] };
            assert(r == seq![c] + r2);
            assert forall|j: int| 0 <= j < r.len() implies !#[trigger] context_starts_at(r, j) by {
                if j > 0 {
                    assert(!context_starts_at(r2, j - 1));
                } else if context_starts_at(r, 0) {
                    assert(!ws);
                    assert(r2 == seq![u[0]] + collapse_from(u.drop_first(), false)) by {
                        if is_white_space(u[0]) {
                            assert(r2[0] == ' ');
                        }
                    }
                    let v = u.drop_first();
                    assert(collapse_from(v, false)[0] == v[0]) by {
                        if is_white_space(v[0]) {
                            assert(collapse_from(v, false)[0] == ' ');
                        }
                    }
                    assert(context_starts_at(s, 0));
                }
            }
        }
    }
}

proof fn lemma_no_start_no_tokens(s: Seq<char>)
    requires
        no_context_start(s),
    ensures
        tokens(s, TokenKind::Context).len() == 0,
    decreases s.len(),
{
    if s.len() > 0 {
        let p = TokenKind::Context;
        if context_unit_len(s) > 0 {
            assert(context_starts_at(s, 0));
        }
        let u = s.drop_first();
        assert(no_context_start(u)) by {
            assert forall|j: int| 0 <= j < u.len() implies !#[trigger] context_starts_at(u, j) by {
                assert(!context_starts_at(s, j + 1));
            }
        }
        lemma_no_start_no_tokens(u);
    }
}

/// Removing contexts leaves no context token, and removing them again
/// changes nothing.
pub proof fn law_remove_context_leaves_none(task: Seq<char>)
    ensures
        tokens(collapse_ws(strip(task, TokenKind::Context)), TokenKind::Context).len() == 0,
        collapse_ws(strip(collapse_ws(strip(task, TokenKind::Context)), TokenKind::Context))
            == collapse_ws(strip(task, TokenKind::Context)),
{
    let s = strip(task, TokenKind::Context);
    lemma_strip_no_context_start(task);
    lemma_collapse_no_context_start(s, false);
    let r = collapse_ws(s);
    lemma_no_start_no_tokens(r);
    law_strip_without_tokens(r, TokenKind::Context);
    law_collapse_single_spaced(s);
}

} // verus!
