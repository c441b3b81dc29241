//! Character-level helpers shared by the task-line scanners: the Unicode
//! `White_Space` property, whitespace collapsing, and conversions between
//! `&str`/`String` and vectors of characters.
use vstd::prelude::*;

verus! {

/// The Unicode `White_Space` property (the set that `char::is_whitespace`
/// and the `\s` class of regular expressions recognise).
pub open spec fn is_white_space(c: char) -> bool {
    ||| ('\u{9}' <= c && c <= '\u{d}')
    ||| c == ' '
    ||| c == '\u{85}'
    ||| c == '\u{a0}'
    ||| c == '\u{1680}'
    ||| ('\u{2000}' <= c && c <= '\u{200a}')
    ||| c == '\u{2028}'
    ||| c == '\u{2029}'
    ||| c == '\u{202f}'
    ||| c == '\u{205f}'
    ||| c == '\u{3000}'
}

/// Executable test of the `White_Space` property.
pub fn white_space(c: char) -> (r: bool)
    ensures
        r == is_white_space(c),
{
    ('\u{9}' <= c && c <= '\u{d}') || c == ' ' || c == '\u{85}' || c == '\u{a0}' || c
        == '\u{1680}' || ('\u{2000}' <= c && c <= '\u{200a}') || c == '\u{2028}' || c
        == '\u{2029}' || c == '\u{202f}' || c == '\u{205f}' || c == '\u{3000}'
}

/// Collapse helper: `after_ws` tells whether the character just before `s`
/// was part of a whitespace run that has already been written out.
pub open spec fn collapse_from(s: Seq<char>, after_ws: bool) -> Seq<char>
    decreases s.len(),
{
    if s.len() == 0 {
        Seq::empty()
    } else if is_white_space(s[0]) {
        if after_ws {
            collapse_from(s.drop_first(), true)
        } else {
            seq![' '] + collapse_from(s.drop_first(), true)
        }
    } else {
        seq![s[0]] + collapse_from(s.drop_first(), false)
    }
}

/// Every maximal run of white space replaced by one space character.
pub open spec fn collapse_ws(s: Seq<char>) -> Seq<char> {
    collapse_from(s, false)
}

/// Text in which white space is single spaces only: no other white-space
/// character, and no two spaces in a row.
pub open spec fn single_spaced(t: Seq<char>) -> bool {
    &&& forall|i: int| 0 <= i < t.len() && is_white_space(#[trigger] t[i]) ==> t[i] == ' '
    &&& forall|i: int| 0 <= i < t.len() - 1 && t[i] == ' ' ==> !is_white_space(#[trigger] t[i + 1])
}

proof fn lemma_collapse_from_single_spaced(s: Seq<char>, after_ws: bool)
    ensures
        single_spaced(collapse_from(s, after_ws)),
        after_ws && collapse_from(s, after_ws).len() > 0 ==> !is_white_space(
            collapse_from(s, after_ws)[0],
        ),
    decreases s.len(),
{
    if s.len() > 0 {
        let rest_ws = is_white_space(s[0]);
        lemma_collapse_from_single_spaced(s.drop_first(), rest_ws);
        let rest = collapse_from(s.drop_first(), rest_ws);
        let r = collapse_from(s, after_ws);
        if rest_ws && after_ws {
        } else {
            let head = if rest_ws { ' ' } else { s[0] };
            assert(r =~= seq![head] + rest);
            assert forall|i: int| 0 <= i < r.len() && is_white_space(#[trigger] r[i]) implies r[i]
                == ' ' by {
                if i > 0 {
                    assert(r[i] == rest[i - 1]);
                }
            }
            assert forall|i: int| 0 <= i < r.len() - 1 && r[i] == ' ' implies !is_white_space(
                #[trigger] r[i + 1],
            ) by {
                if i > 0 {
                    assert(r[i] == rest[i - 1]);
                    assert(r[i + 1] == rest[i]);
                    let j = i - 1;
                    assert(rest[j] == ' ');
                    assert(!is_white_space(rest[j + 1]));
                } else {
                    assert(r[1] == rest[0]);
                    assert(rest_ws);
                    assert(rest.len() > 0);
                    assert(!is_white_space(rest[0]));
                }
            }
        }
    }
}

proof fn lemma_collapse_from_fixed(t: Seq<char>, after_ws: bool)
    requires
        single_spaced(t),
        after_ws && t.len() > 0 ==> !is_white_space(t[0]),
    ensures
        collapse_from(t, after_ws) == t,
    decreases t.len(),
{
    if t.len() > 0 {
        let d = t.drop_first();
        assert(single_spaced(d)) by {
            assert forall|i: int| 0 <= i < d.len() && is_white_space(#[trigger] d[i]) implies d[i]
                == ' ' by {
                assert(d[i] == t[i + 1]);
            }
            assert forall|i: int| 0 <= i < d.len() - 1 && d[i] == ' ' implies !is_white_space(
                #[trigger] d[i + 1],
            ) by {
                assert(d[i] == t[i + 1]);
                assert(d[i + 1] == t[i + 2]);
            }
        }
        if t.len() > 1 && t[0] == ' ' {
            let z: int = 0;
            assert(t[z] == ' ');
            assert(!is_white_space(t[z + 1]));
        }
        lemma_collapse_from_fixed(d, is_white_space(t[0]));
        assert(t =~= seq![t[0]] + d);
    }
}

/// Collapsing white space leaves single spaces only, and collapsing again
/// changes nothing.
pub proof fn law_collapse_single_spaced(s: Seq<char>)
    ensures
        single_spaced(collapse_ws(s)),
        collapse_ws(collapse_ws(s)) == collapse_ws(s),
{
    lemma_collapse_from_single_spaced(s, false);
    lemma_collapse_from_fixed(collapse_ws(s), false);
}

/// The characters of a string slice, in order.
pub fn chars_of(s: &str) -> (v: Vec<char>)
    ensures
        v@ == s@,
{
    let mut v: Vec<char> = Vec::new();
    for c in it: s.chars()
        invariant
            it.seq() == s@,
            v@ == it.seq().take(it.index() as int),
    {
        v.push(c);
    }
    assert(v@ =~= s@);
    v
}

/// Appends one character to a string by `String::push` of std, whose
/// contract here claims (as its documentation says) that the character is
/// added at the end and nothing else changes.
#[verifier::external_body]
fn push_char(s: &mut String, c: char)
    ensures
        final(s)@ == old(s)@.push(c),
{
    s.push(c);
}

/// The string made of the characters of `v`, in order.
pub fn string_of(v: &Vec<char>) -> (s: String)
    ensures
        s@ == v@,
{
    let mut s = String::new();
    let mut i: usize = 0;
    while i < v.len()
        invariant
            i <= v.len(),
            s@ == v@.take(i as int),
        decreases v.len() - i,
    {
        push_char(&mut s, v[i]);
        i = i + 1;
        assert(s@ =~= v@.take(i as int));
    }
    assert(v@.take(i as int) =~= v@);
    s
}

/// The string made of the characters `v[from..to]`.
pub fn string_of_range(v: &Vec<char>, from: usize, to: usize) -> (s: String)
    requires
        from <= to <= v.len(),
    ensures
        s@ == v@.subrange(from as int, to as int),
{
    let mut s = String::new();
    let mut i: usize = from;
    while i < to
        invariant
            from <= i <= to <= v.len(),
            s@ == v@.subrange(from as int, i as int),
        decreases to - i,
    {
        push_char(&mut s, v[i]);
        i = i + 1;
        assert(s@ =~= v@.subrange(from as int, i as int));
    }
    s
}

/// Whether two character vectors hold the same characters.
pub fn same_chars(a: &Vec<char>, b: &Vec<char>) -> (r: bool)
    ensures
        r == (a@ == b@),
{
    if a.len() != b.len() {
        return false;
    }
    let mut i: usize = 0;
    while i < a.len()
        invariant
            i <= a.len() == b.len(),
            forall|k: int| 0 <= k < i ==> a@[k] == b@[k],
        decreases a.len() - i,
    {
        if a[i] != b[i] {
            return false;
        }
        i = i + 1;
    }
    assert(a@ =~= b@);
    true
}

/// The characters of each string of `v`.
pub fn chars_of_each(v: &[String]) -> (r: Vec<Vec<char>>)
    ensures
        r@.len() == v@.len(),
        forall|i: int| 0 <= i < v@.len() ==> #[trigger] r@[i]@ == v@[i]@,
{
    let mut r: Vec<Vec<char>> = Vec::new();
    let mut i: usize = 0;
    while i < v.len()
        invariant
            i <= v@.len(),
            r@.len() == i,
            forall|k: int| 0 <= k < i ==> #[trigger] r@[k]@ == v@[k]@,
        decreases v@.len() - i,
    {
        r.push(chars_of(v[i].as_str()));
        i = i + 1;
    }
    r
}

/// The views of a sequence of strings.
pub open spec fn strings_view(v: Seq<String>) -> Seq<Seq<char>> {
    v.map_values(|s: String| s@)
}

/// Collapses every maximal run of white space in `v` into one space.
pub fn collapse_chars(v: &Vec<char>) -> (r: Vec<char>)
    ensures
        r@ == collapse_ws(v@),
{
    let mut r: Vec<char> = Vec::new();
    let mut after_ws = false;
    let mut i: usize = 0;
    assert(v@.skip(0) =~= v@);
    assert(r@ + collapse_ws(v@) =~= collapse_ws(v@));
    while i < v.len()
        invariant
            i <= v.len(),
            r@ + collapse_from(v@.skip(i as int), after_ws) == collapse_ws(v@),
        decreases v.len() - i,
    {
        let ghost rest = v@.skip(i as int);
        assert(rest.drop_first() =~= v@.skip(i + 1));
        let c = v[i];
        if white_space(c) {
            if !after_ws {
                r.push(' ');
            }
            after_ws = true;
        } else {
            r.push(c);
            after_ws = false;
        }
        i = i + 1;
    }
    assert(v@.skip(i as int) =~= Seq::<char>::empty());
    assert(r@ + Seq::<char>::empty() =~= r@);
    r
}

/// `v` with every run of white space replaced by one space, as a string.
pub fn collapse_to_string(v: &Vec<char>) -> (s: String)
    ensures
        s@ == collapse_ws(v@),
{
    let r = collapse_chars(v);
    string_of(&r)
}

/// Index of the first `c` in `s`, or `s.len()` when there is none.
pub open spec fn first_index_of(s: Seq<char>, c: char) -> nat
    decreases s.len(),
{
    if s.len() == 0 {
        0
    } else if s[0] == c {
        0
    } else {
        1 + first_index_of(s.drop_first(), c)
    }
}

/// The pieces of `s` between the separators `c`: `"a,,b"` gives `a`, ``, `b`
/// and the empty text gives one empty piece.
pub open spec fn split_on(s: Seq<char>, c: char) -> Seq<Seq<char>>
    decreases s.len(),
{
    let k = first_index_of(s, c);
    if k < s.len() {
        seq![s.take(k as int)] + split_on(s.skip(k + 1int), c)
    } else {
        seq![s]
    }
}

/// A line without the `\r` of its `\r\n` ending.
pub open spec fn strip_cr(line: Seq<char>) -> Seq<char> {
    if line.len() > 0 && line.last() == '\r' {
        line.drop_last()
    } else {
        line
    }
}

/// The lines of a text: split at `\n` (a `\r` just before it belongs to
/// the line ending), the last line ending being optional.
pub open spec fn lines_of(s: Seq<char>) -> Seq<Seq<char>>
    decreases s.len(),
{
    if s.len() == 0 {
        Seq::empty()
    } else {
        let k = first_index_of(s, '\n');
        if k < s.len() {
            seq![strip_cr(s.take(k as int))] + lines_of(s.skip(k + 1int))
        } else {
            seq![s]
        }
    }
}

/// Index of the first `c` in `v` at or after `i`, or `v.len()`.
fn index_of_from(v: &Vec<char>, i: usize, c: char) -> (j: usize)
    requires
        i <= v.len(),
    ensures
        i <= j <= v.len(),
        j - i == first_index_of(v@.skip(i as int), c),
{
    let mut j = i;
    while j < v.len() && v[j] != c
        invariant
            i <= j <= v.len(),
            first_index_of(v@.skip(i as int), c) == (j - i) + first_index_of(v@.skip(j as int), c),
        decreases v.len() - j,
    {
        assert(v@.skip(j as int).drop_first() =~= v@.skip(j + 1));
        j = j + 1;
    }
    j
}

/// The pieces of `s` between the separators `c`.
pub fn split_chars(s: &str, c: char) -> (r: Vec<String>)
    ensures
        strings_view(r@) == split_on(s@, c),
{
    let v = chars_of(s);
    let mut r: Vec<String> = Vec::new();
    let mut i: usize = 0;
    assert(v@.skip(0) =~= v@);
    assert(strings_view(r@) + split_on(v@, c) =~= split_on(v@, c));
    loop
        invariant
            i <= v.len(),
            strings_view(r@) + split_on(v@.skip(i as int), c) == split_on(s@, c),
            v@ == s@,
        decreases v.len() - i,
    {
        let ghost t = v@.skip(i as int);
        let j = index_of_from(&v, i, c);
        let piece = string_of_range(&v, i, j);
        assert(piece@ =~= t.take((j - i) as int));
        let ghost old_r = r@;
        r.push(piece);
        assert(strings_view(r@) =~= strings_view(old_r).push(piece@));
        if j < v.len() {
            assert(t.skip((j - i) + 1) =~= v@.skip(j + 1));
            assert(strings_view(r@) + split_on(v@.skip(j + 1), c) =~= strings_view(old_r)
                + split_on(t, c));
            i = j + 1;
        } else {
            assert(strings_view(r@) =~= strings_view(old_r) + split_on(t, c));
            return r;
        }
    }
}

/// The lines of a text (see `lines_of`).
pub fn lines(s: &str) -> (r: Vec<String>)
    ensures
        strings_view(r@) == lines_of(s@),
{
    let v = chars_of(s);
    let mut r: Vec<String> = Vec::new();
    let mut i: usize = 0;
    assert(v@.skip(0) =~= v@);
    assert(strings_view(r@) + lines_of(v@) =~= lines_of(v@));
    while i < v.len()
        invariant
            i <= v.len(),
            strings_view(r@) + lines_of(v@.skip(i as int)) == lines_of(s@),
            v@ == s@,
        decreases v.len() - i,
    {
        let ghost t = v@.skip(i as int);
        let j = index_of_from(&v, i, '\n');
        let ghost old_r = r@;
        if j < v.len() {
            let end = if j > i && v[j - 1] == '\r' {
                j - 1
            } else {
                j
            };
            let piece = string_of_range(&v, i, end);
            assert(piece@ =~= strip_cr(t.take((j - i) as int)));
            r.push(piece);
            assert(strings_view(r@) =~= strings_view(old_r).push(piece@));
            assert(t.skip((j - i) + 1) =~= v@.skip(j + 1));
            assert(strings_view(r@) + lines_of(v@.skip(j + 1)) =~= strings_view(old_r)
                + lines_of(t));
            i = j + 1;
        } else {
            let piece = string_of_range(&v, i, j);
            assert(piece@ =~= t);
            r.push(piece);
            assert(strings_view(r@) =~= strings_view(old_r).push(piece@));
            assert(v@.skip(j as int) =~= Seq::<char>::empty());
            assert(strings_view(r@) + lines_of(v@.skip(j as int)) =~= strings_view(old_r)
                + lines_of(t));
            i = j;
        }
    }
    assert(v@.skip(i as int) =~= Seq::<char>::empty());
    assert(strings_view(r@) + Seq::<Seq<char>>::empty() =~= strings_view(r@));
    r
}

/// Whether `s` begins with `prefix`.
pub fn starts_with(s: &str, prefix: &str) -> (r: bool)
    ensures
        r == prefix@.is_prefix_of(s@),
{
    let v = chars_of(s);
    let p = chars_of(prefix);
    if p.len() > v.len() {
        return false;
    }
    let mut i: usize = 0;
    while i < p.len()
        invariant
            i <= p.len() <= v.len(),
            v@ == s@,
            p@ == prefix@,
            forall|k: int| 0 <= k < i ==> p@[k] == v@[k],
        decreases p.len() - i,
    {
        if p[i] != v[i] {
            assert(p@[i as int] != v@.subrange(0, p@.len() as int)[i as int]);
            return false;
        }
        i = i + 1;
    }
    assert(p@ =~= v@.subrange(0, p@.len() as int));
    true
}

} // verus!
