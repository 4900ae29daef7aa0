//! Built-in primitive rule names.

use vstd::prelude::*;

use crate::text::{chars_of, find_in, find_in_range, lemma_find_in_bounds, matches_at, occurs_at};

verus! {

/// The set of built-in primitive names recognized by the evaluator.
pub const BUILTINS: [&'static str; 8] = ["box", "sphere", "cylinder", "mesh", "line", "dot", "grid", "template"];

/// `s` is one of the built-in primitive names.
pub open spec fn is_builtin_name(s: Seq<char>) -> bool {
    exists|i: int| 0 <= i < 8 && s == (#[trigger] BUILTINS[i])@
}

/// The opening of an inline triangle reference, `triangle[`.
pub open spec fn triangle_open() -> Seq<char> {
    seq!['t', 'r', 'i', 'a', 'n', 'g', 'l', 'e', '[']
}

/// `s` is an inline triangle reference: it starts with `triangle[`.
pub open spec fn is_triangle_name(s: Seq<char>) -> bool {
    triangle_open().is_prefix_of(s)
}

/// Whether two strings hold the same characters.
pub fn str_eq(a: &str, b: &str) -> (r: bool)
    ensures
        r == (a@ == b@),
{
    String::from_str(a) == String::from_str(b)
}

/// Returns true if the given name is a built-in primitive.
pub fn is_builtin(name: &str) -> (r: bool)
    ensures
        r == is_builtin_name(name@),
{
    let names = BUILTINS;
    for i in 0..8
        invariant
            names == BUILTINS,
            forall|j: int| 0 <= j < i ==> name@ != (#[trigger] BUILTINS[j])@,
    {
        if str_eq(name, names[i]) {
            return true;
        }
    }
    false
}

/// Returns true if the given name is an inline triangle reference
/// (`triangle[x y z; ...]`).
pub fn is_triangle_ref(name: &str) -> (r: bool)
    ensures
        r == is_triangle_name(name@),
{
    let cs = chars_of(name);
    let open = chars_of("triangle[");
    proof {
        reveal_strlit("triangle[");
        assert(open@ =~= triangle_open());
    }
    let r = matches_at(&cs, &open, 0);
    proof {
        if r {
            assert(cs@.subrange(0, 9) =~= triangle_open());
        } else if triangle_open().is_prefix_of(cs@) {
            assert(cs@.subrange(0, 9) =~= triangle_open());
        }
    }
    r
}

/// The separator of a class specifier, `::`.
pub open spec fn class_sep() -> Seq<char> {
    seq![':', ':']
}

/// `s` split around its first `::`, as `str::split_once("::")` splits it.
pub open spec fn split_class(s: Seq<char>) -> Option<(Seq<char>, Seq<char>)> {
    match find_in(s, class_sep(), 0, s.len() as int) {
        Some(i) => Some((s.take(i), s.skip(i + 2))),
        None => None,
    }
}

/// Split `s` around its first `::`.
pub fn split_once_class(s: &str) -> (r: Option<(String, String)>)
    ensures
        match r {
            Some((a, b)) => split_class(s@) == Some((a@, b@)),
            None => split_class(s@) is None,
        },
{
    let cs = chars_of(s);
    let sep: Vec<char> = vec![':', ':'];
    assert(sep@ =~= class_sep());
    match find_in_range(&cs, &sep, 0, cs.len()) {
        Some(i) => {
            proof {
                lemma_find_in_bounds(cs@, class_sep(), 0, cs@.len() as int);
            }
            let a = s.substring_char(0, i);
            let b = s.substring_char(i + 2, cs.len());
            Some((String::from_str(a), String::from_str(b)))
        },
        None => None,
    }
}

} // verus!
