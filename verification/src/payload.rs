//! Bracketed number lists in script text. The inline vertices of a triangle
//! primitive, `[x0 y0 z0; x1 y1 z1; x2 y2 z2]`: the text is trimmed, its
//! brackets are dropped, it is split at each `;`, and each part is split into
//! words. A camera vector or matrix setting, `[x y z]`: the trimmed text must
//! be bracketed, and its inside is split into words. The words are the
//! numbers' text.

use vstd::prelude::*;

use crate::editor::{is_white_space, trimmed};

verus! {

/// `s` without any leading `c`.
pub open spec fn strip_front(s: Seq<char>, c: char) -> Seq<char>
    decreases s.len(),
{
    if s.len() > 0 && s[0] == c {
        strip_front(s.drop_first(), c)
    } else {
        s
    }
}

/// `s` without any trailing `c`.
pub open spec fn strip_back(s: Seq<char>, c: char) -> Seq<char>
    decreases s.len(),
{
    if s.len() > 0 && s.last() == c {
        strip_back(s.drop_last(), c)
    } else {
        s
    }
}

/// `str::split(c)`: the pieces between the occurrences of `c` (an empty text
/// is one empty piece).
pub open spec fn split_at_char(s: Seq<char>, c: char) -> Seq<Seq<char>>
    decreases s.len(),
{
    if s.len() == 0 {
        seq![seq![]]
    } else {
        let p = split_at_char(s.drop_last(), c);
        if s.last() == c {
            p.push(seq![])
        } else {
            p.update(p.len() - 1, p.last().push(s.last()))
        }
    }
}

/// `str::split_whitespace`: the maximal runs of characters that are not
/// white space.
pub open spec fn words(s: Seq<char>) -> Seq<Seq<char>>
    decreases s.len(),
{
    if s.len() == 0 {
        seq![]
    } else {
        let w = words(s.drop_last());
        let ch = s.last();
        if is_white_space(ch) {
            w
        } else if s.len() >= 2 && !is_white_space(s[s.len() - 2]) {
            w.update(w.len() - 1, w.last().push(ch))
        } else {
            w.push(seq![ch])
        }
    }
}

/// The words of each `;`-separated part of a triangle payload.
pub open spec fn payload_parts(payload: Seq<char>) -> Seq<Seq<Seq<char>>> {
    split_at_char(strip_back(strip_front(trimmed(payload), '['), ']'), ';').map_values(
        |p: Seq<char>| words(p),
    )
}

proof fn lemma_split_nonempty(s: Seq<char>, c: char)
    ensures
        split_at_char(s, c).len() >= 1,
    decreases s.len(),
{
    if s.len() > 0 {
        lemma_split_nonempty(s.drop_last(), c);
    }
}

proof fn lemma_words_last(s: Seq<char>)
    requires
        s.len() > 0,
        !is_white_space(s.last()),
    ensures
        words(s).len() >= 1,
    decreases s.len(),
{
    if s.len() >= 2 && !is_white_space(s[s.len() - 2]) {
        assert(s.drop_last().last() == s[s.len() - 2]);
        lemma_words_last(s.drop_last());
    }
}

/// The words of `cs`, as `str::split_whitespace` gives them.
fn split_words(cs: &Vec<char>) -> (r: Vec<Vec<char>>)
    ensures
        r@.map_values(|x: Vec<char>| x@) == words(cs@),
{
    let mut out: Vec<Vec<char>> = Vec::new();
    let mut i: usize = 0;
    while i < cs.len()
        invariant
            i <= cs@.len(),
            out@.map_values(|x: Vec<char>| x@) == words(cs@.take(i as int)),
        decreases cs.len() - i,
    {
        let ch = cs[i];
        let ghost before = out@.map_values(|x: Vec<char>| x@);
        let ghost t = cs@.take(i + 1);
        assert(t.drop_last() =~= cs@.take(i as int));
        assert(t.last() == ch);
        if crate::editor::white_space_char(ch) {
        } else if i >= 1 && !crate::editor::white_space_char(cs[i - 1]) {
            assert(t[t.len() - 2] == cs@[i - 1]);
            proof {
                lemma_words_last(cs@.take(i as int));
                assert(cs@.take(i as int).last() == cs@[i - 1]);
            }
            let last = out.len() - 1;
            let mut w = out.remove(last);
            w.push(ch);
            out.push(w);
            assert(out@.map_values(|x: Vec<char>| x@) =~= before.update(
                before.len() - 1,
                before.last().push(ch),
            ));
        } else {
            let mut w: Vec<char> = Vec::new();
            w.push(ch);
            out.push(w);
            assert(out@.map_values(|x: Vec<char>| x@) =~= before.push(seq![ch]));
        }
        i = i + 1;
    }
    assert(cs@.take(cs@.len() as int) =~= cs@);
    out
}

/// The pieces of `cs` between the occurrences of `c`.
fn split_char(cs: &Vec<char>, c: char) -> (r: Vec<Vec<char>>)
    ensures
        r@.map_values(|x: Vec<char>| x@) == split_at_char(cs@, c),
{
    let mut out: Vec<Vec<char>> = Vec::new();
    out.push(Vec::new());
    assert(out@.map_values(|x: Vec<char>| x@) =~= split_at_char(cs@.take(0), c));
    let mut i: usize = 0;
    while i < cs.len()
        invariant
            i <= cs@.len(),
            out@.map_values(|x: Vec<char>| x@) == split_at_char(cs@.take(i as int), c),
        decreases cs.len() - i,
    {
        let ch = cs[i];
        let ghost before = out@.map_values(|x: Vec<char>| x@);
        let ghost t = cs@.take(i + 1);
        assert(t.drop_last() =~= cs@.take(i as int));
        assert(t.last() == ch);
        proof {
            lemma_split_nonempty(cs@.take(i as int), c);
        }
        if ch == c {
            out.push(Vec::new());
            assert(out@.map_values(|x: Vec<char>| x@) =~= before.push(seq![]));
        } else {
            let last = out.len() - 1;
            let mut w = out.remove(last);
            w.push(ch);
            out.push(w);
            assert(out@.map_values(|x: Vec<char>| x@) =~= before.update(
                before.len() - 1,
                before.last().push(ch),
            ));
        }
        i = i + 1;
    }
    assert(cs@.take(cs@.len() as int) =~= cs@);
    out
}

proof fn lemma_strip_front_at(s: Seq<char>, c: char, a: int)
    requires
        0 <= a <= s.len(),
        forall|j: int| 0 <= j < a ==> #[trigger] s[j] == c,
        a == s.len() || s[a] != c,
    ensures
        strip_front(s, c) == s.skip(a),
    decreases a,
{
    if a > 0 {
        assert forall|j: int| 0 <= j < a - 1 implies #[trigger] s.drop_first()[j] == c by {
            assert(s.drop_first()[j] == s[j + 1]);
        }
        if a < s.len() {
            assert(s.drop_first()[a - 1] == s[a]);
        }
        lemma_strip_front_at(s.drop_first(), c, a - 1);
        assert(s.drop_first().skip(a - 1) =~= s.skip(a));
    } else {
        assert(s.skip(0) =~= s);
    }
}

proof fn lemma_strip_back_at(s: Seq<char>, c: char, b: int)
    requires
        0 <= b <= s.len(),
        forall|j: int| b <= j < s.len() ==> #[trigger] s[j] == c,
        b == 0 || s[b - 1] != c,
    ensures
        strip_back(s, c) == s.take(b),
    decreases s.len() - b,
{
    if b < s.len() {
        assert forall|j: int| b <= j < s.len() - 1 implies #[trigger] s.drop_last()[j] == c by {
            assert(s.drop_last()[j] == s[j]);
        }
        if b > 0 {
            assert(s.drop_last()[b - 1] == s[b - 1]);
        }
        lemma_strip_back_at(s.drop_last(), c, b);
        assert(s.drop_last().take(b) =~= s.take(b));
    } else {
        assert(s.take(b) =~= s);
    }
}

/// The characters of `cs[a..b]`.
fn slice_chars(cs: &Vec<char>, a: usize, b: usize) -> (r: Vec<char>)
    requires
        a <= b <= cs@.len(),
    ensures
        r@ == cs@.subrange(a as int, b as int),
{
    let mut r: Vec<char> = Vec::new();
    for i in a..b
        invariant
            a <= i <= b,
            b <= cs@.len(),
            r@ == cs@.subrange(a as int, i as int),
    {
        r.push(cs[i]);
        assert(r@ =~= cs@.subrange(a as int, i + 1));
    }
    r
}

/// The words of each `;`-separated part of a triangle payload, as
/// characters. A well-formed payload has three parts of three numbers each.
pub fn triangle_parts(payload: &str) -> (r: Vec<Vec<Vec<char>>>)
    ensures
        r@.map_values(|p: Vec<Vec<char>>| p@.map_values(|x: Vec<char>| x@)) == payload_parts(
            payload@,
        ),
{
    let cs = crate::text::chars_of(crate::editor::trim_text(payload));
    let n = cs.len();
    let mut a: usize = 0;
    while a < n && cs[a] == '['
        invariant
            a <= n,
            n == cs@.len(),
            forall|j: int| 0 <= j < a ==> #[trigger] cs@[j] == '[',
        decreases n - a,
    {
        a = a + 1;
    }
    proof {
        lemma_strip_front_at(cs@, '[', a as int);
    }
    let ghost u = cs@.skip(a as int);
    let mut b: usize = n;
    while b > a && cs[b - 1] == ']'
        invariant
            a <= b <= n,
            n == cs@.len(),
            forall|j: int| b <= j < n ==> #[trigger] cs@[j] == ']',
        decreases b - a,
    {
        b = b - 1;
    }
    proof {
        assert forall|j: int| b - a <= j < u.len() implies #[trigger] u[j] == ']' by {
            assert(u[j] == cs@[j + a]);
        }
        if b > a {
            assert(u[b - a - 1] == cs@[b - 1]);
        }
        lemma_strip_back_at(u, ']', b - a);
        assert(u.take(b - a) =~= cs@.subrange(a as int, b as int));
    }
    let inner = slice_chars(&cs, a, b);
    let parts = split_char(&inner, ';');
    let ghost pv = parts@.map_values(|x: Vec<char>| x@);
    let mut out: Vec<Vec<Vec<char>>> = Vec::new();
    for i in 0..parts.len()
        invariant
            pv == parts@.map_values(|x: Vec<char>| x@),
            out@.map_values(|p: Vec<Vec<char>>| p@.map_values(|x: Vec<char>| x@)) == pv.take(
                i as int,
            ).map_values(|p: Seq<char>| words(p)),
    {
        let ws = split_words(&parts[i]);
        let ghost before = out@.map_values(|p: Vec<Vec<char>>| p@.map_values(|x: Vec<char>| x@));
        out.push(ws);
        assert(pv[i as int] == parts@[i as int]@);
        assert(out@.map_values(|p: Vec<Vec<char>>| p@.map_values(|x: Vec<char>| x@)) =~= before.push(
            words(pv[i as int]),
        ));
        assert(pv.take(i + 1).map_values(|p: Seq<char>| words(p)) =~= pv.take(i as int).map_values(
            |p: Seq<char>| words(p),
        ).push(words(pv[i as int])));
    }
    assert(pv.take(pv.len() as int) =~= pv);
    out
}

/// The words inside a bracketed list `[a b c …]` (after trimming), or `None`
/// when the text does not start with `[` and end with `]`.
pub open spec fn bracket_words_of(s: Seq<char>) -> Option<Seq<Seq<char>>> {
    let t = trimmed(s);
    if t.len() >= 2 && t[0] == '[' && t.last() == ']' {
        Some(words(t.subrange(1, t.len() - 1)))
    } else {
        None
    }
}

/// The words of a bracketed camera value such as `[0 0 -20]`.
pub fn bracket_words(s: &str) -> (r: Option<Vec<Vec<char>>>)
    ensures
        match r {
            Some(w) => bracket_words_of(s@) == Some(w@.map_values(|x: Vec<char>| x@)),
            None => bracket_words_of(s@) is None,
        },
{
    let cs = crate::text::chars_of(crate::editor::trim_text(s));
    let n = cs.len();
    if n >= 2 && cs[0] == '[' && cs[n - 1] == ']' {
        let inner = slice_chars(&cs, 1, n - 1);
        Some(split_words(&inner))
    } else {
        None
    }
}

} // verus!
