//! Character-sequence helpers: searching, line splitting and joining, with the
//! same meaning as `str::find`, `str::lines` and `join` in std.

use vstd::prelude::*;

verus! {

/// `p` occurs in `s` at position `i`.
pub open spec fn occurs_at(s: Seq<char>, p: Seq<char>, i: int) -> bool {
    0 <= i && i + p.len() <= s.len() && s.subrange(i, i + p.len()) == p
}

/// The first position `k` with `from <= k` and `k + p.len() <= to` at which `p`
/// occurs in `s`, if any.
pub open spec fn find_in(s: Seq<char>, p: Seq<char>, from: int, to: int) -> Option<int>
    decreases to - from + 1,
{
    if from < 0 || from + p.len() > to {
        None
    } else if occurs_at(s, p, from) {
        Some(from)
    } else {
        find_in(s, p, from + 1, to)
    }
}

/// Removes one trailing carriage return.
pub open spec fn strip_cr(l: Seq<char>) -> Seq<char> {
    if l.len() > 0 && l.last() == '\r' {
        l.drop_last()
    } else {
        l
    }
}

/// The lines of `s` from position `start` on, as `str::lines` splits them: at
/// each `\n`, dropping a `\r` just before it, with no empty line after a final
/// `\n`.
pub open spec fn lines_from(s: Seq<char>, start: int) -> Seq<Seq<char>>
    decreases s.len() - start,
{
    if start < 0 || start >= s.len() {
        seq![]
    } else {
        match find_in(s, seq!['\n'], start, s.len() as int) {
            None => seq![s.subrange(start, s.len() as int)],
            Some(k) => if start <= k && k < s.len() {
                seq![strip_cr(s.subrange(start, k))] + lines_from(s, k + 1)
            } else {
                seq![]
            },
        }
    }
}

/// The lines of `s`, as `str::lines` returns them.
pub open spec fn lines(s: Seq<char>) -> Seq<Seq<char>> {
    lines_from(s, 0)
}

/// The pieces of `ls` joined with `sep` between neighbours.
pub open spec fn join(ls: Seq<Seq<char>>, sep: Seq<char>) -> Seq<char>
    decreases ls.len(),
{
    if ls.len() == 0 {
        seq![]
    } else if ls.len() == 1 {
        ls[0]
    } else {
        join(ls.drop_last(), sep) + sep + ls.last()
    }
}

pub proof fn lemma_find_in_bounds(s: Seq<char>, p: Seq<char>, from: int, to: int)
    ensures
        find_in(s, p, from, to) matches Some(k) ==> from <= k && k + p.len() <= to
            && occurs_at(s, p, k),
        find_in(s, p, from, to) matches Some(k) ==> forall|j: int|
            from <= j < k ==> !#[trigger] occurs_at(s, p, j),
    decreases to - from + 1,
{
    if from >= 0 && from + p.len() <= to && !occurs_at(s, p, from) {
        lemma_find_in_bounds(s, p, from + 1, to);
    }
}

/// Positions before `k` where `p` does not occur do not change the search.
pub proof fn lemma_find_skips(s: Seq<char>, p: Seq<char>, from: int, k: int, to: int)
    requires
        0 <= from <= k,
        k + p.len() <= to,
        forall|j: int| from <= j < k ==> !#[trigger] occurs_at(s, p, j),
    ensures
        find_in(s, p, from, to) == find_in(s, p, k, to),
    decreases k - from,
{
    if from < k {
        lemma_find_skips(s, p, from + 1, k, to);
    }
}

/// A search that finds nothing from `from` on.
pub proof fn lemma_find_none(s: Seq<char>, p: Seq<char>, from: int, to: int)
    requires
        0 <= from,
        forall|j: int| from <= j && j + p.len() <= to ==> !#[trigger] occurs_at(s, p, j),
    ensures
        find_in(s, p, from, to) is None,
    decreases to - from + 1,
{
    if from + p.len() <= to {
        lemma_find_none(s, p, from + 1, to);
    }
}

/// A search that finds nothing finds no occurrence in its range.
pub proof fn lemma_find_none_absent(s: Seq<char>, p: Seq<char>, from: int, to: int, j: int)
    requires
        find_in(s, p, from, to) is None,
        0 <= from <= j,
        j + p.len() <= to,
    ensures
        !occurs_at(s, p, j),
    decreases j - from,
{
    if j > from {
        lemma_find_none_absent(s, p, from + 1, to, j);
    }
}

/// Joining one more piece adds the separator and the piece.
pub proof fn lemma_join_push(ls: Seq<Seq<char>>, l: Seq<char>, sep: Seq<char>)
    ensures
        join(ls.push(l), sep) == if ls.len() == 0 { l } else { join(ls, sep) + sep + l },
{
    assert(ls.push(l).drop_last() =~= ls);
}

/// A copy of the characters of `s`.
pub fn chars_of(s: &str) -> (v: Vec<char>)
    ensures
        v@ == s@,
{
    let n = s.unicode_len();
    let mut v: Vec<char> = Vec::new();
    for i in 0..n
        invariant
            n == s@.len(),
            v@ == s@.take(i as int),
    {
        let c = s.get_char(i);
        v.push(c);
        assert(v@ =~= s@.take(i + 1));
    }
    assert(v@ =~= s@);
    v
}

/// Whether `p` occurs in `s` at position `i`.
pub fn matches_at(s: &Vec<char>, p: &Vec<char>, i: usize) -> (b: bool)
    ensures
        b == occurs_at(s@, p@, i as int),
{
    if i > s.len() || p.len() > s.len() - i {
        return false;
    }
    let mut j: usize = 0;
    while j < p.len()
        invariant
            i + p@.len() <= s@.len(),
            p@.len() == p.len(),
            s@.len() == s.len(),
            j <= p@.len(),
            forall|k: int| 0 <= k < j ==> s@[i + k] == p@[k],
        decreases p.len() - j,
    {
        if s[i + j] != p[j] {
            assert(s@.subrange(i as int, i + p@.len())[j as int] != p@[j as int]);
            return false;
        }
        j = j + 1;
    }
    assert(s@.subrange(i as int, i + p@.len()) =~= p@);
    true
}

/// The first occurrence of `p` in `s` that starts at or after `from` and ends
/// at or before `to`.
pub fn find_in_range(s: &Vec<char>, p: &Vec<char>, from: usize, to: usize) -> (r: Option<usize>)
    requires
        to <= s@.len(),
    ensures
        r matches Some(k) ==> find_in(s@, p@, from as int, to as int) == Some(k as int),
        r is None ==> find_in(s@, p@, from as int, to as int) is None,
{
    let mut i = from;
    while i <= to && p.len() <= to - i
        invariant
            to <= s@.len(),
            from <= i,
            find_in(s@, p@, from as int, to as int) == find_in(s@, p@, i as int, to as int),
        decreases to - i + 1,
    {
        if matches_at(s, p, i) {
            return Some(i);
        }
        if i == to {
            assert(find_in(s@, p@, i + 1, to as int) is None);
            return None;
        }
        i = i + 1;
    }
    None
}

/// Searching a piece of `s` is searching `s` between the piece's bounds.
pub proof fn lemma_find_in_subrange(s: Seq<char>, p: Seq<char>, a: int, b: int, f: int, t: int)
    requires
        0 <= a <= b <= s.len(),
        0 <= f,
        t <= b - a,
    ensures
        find_in(s.subrange(a, b), p, f, t) == match find_in(s, p, a + f, a + t) {
            Some(k) => Some(k - a),
            None => None,
        },
    decreases t - f + 1,
{
    if f + p.len() <= t {
        assert(s.subrange(a, b).subrange(f, f + p.len()) =~= s.subrange(a + f, a + f + p.len()));
        lemma_find_in_subrange(s, p, a, b, f + 1, t);
    }
}

/// The bounds of the line that starts at `start`: its content ends at `r.0`
/// (before any `\r\n` or `\n`) and the next line starts at `r.1`.
pub fn line_at(cs: &Vec<char>, start: usize) -> (r: (usize, usize))
    requires
        start < cs@.len(),
    ensures
        start <= r.0 <= r.1 <= cs@.len(),
        start < r.1,
        lines_from(cs@, start as int) == seq![cs@.subrange(start as int, r.0 as int)]
            + lines_from(cs@, r.1 as int),
        match find_in(cs@, seq!['\n'], start as int, cs@.len() as int) {
            Some(k) => start <= k < cs@.len() && r.1 == k + 1 && strip_cr(
                cs@.subrange(start as int, k),
            ) == cs@.subrange(start as int, r.0 as int),
            None => r.0 == cs@.len() && r.1 == cs@.len(),
        },
{
    let nl: Vec<char> = vec!['\n'];
    let n = cs.len();
    let k = find_in_range(cs, &nl, start, n);
    proof {
        lemma_find_in_bounds(cs@, nl@, start as int, n as int);
        assert(nl@ =~= seq!['\n']);
    }
    match k {
        None => {
            assert(lines_from(cs@, n as int) =~= Seq::<Seq<char>>::empty());
            (n, n)
        },
        Some(k) => {
            if k > start && cs[k - 1] == '\r' {
                assert(strip_cr(cs@.subrange(start as int, k as int)) =~= cs@.subrange(
                    start as int,
                    k - 1,
                ));
                (k - 1, k + 1)
            } else {
                assert(strip_cr(cs@.subrange(start as int, k as int)) =~= cs@.subrange(
                    start as int,
                    k as int,
                ));
                (k, k + 1)
            }
        },
    }
}

// ── Numbers and case ───────────────────────────────────────────────────────

pub open spec fn is_digit(c: char) -> bool {
    '0' <= c && c <= '9'
}

/// The value of a string of decimal digits.
pub open spec fn decimal_value(d: Seq<char>) -> int
    decreases d.len(),
{
    if d.len() == 0 {
        0
    } else {
        decimal_value(d.drop_last()) * 10 + (d.last() as int - '0' as int)
    }
}

/// What `str::parse` gives for an unsigned integer type whose largest value is
/// `max`: an optional `+`, then one or more decimal digits whose value is at
/// most `max`.
pub open spec fn unsigned_value(s: Seq<char>, max: int) -> Option<int> {
    let d = sign_stripped(s);
    if d.len() == 0 || !all_digits(d) {
        None
    } else if decimal_value(d) > max {
        None
    } else {
        Some(decimal_value(d))
    }
}

/// `s` without one leading `+`, where it has one.
pub open spec fn sign_stripped(s: Seq<char>) -> Seq<char> {
    if s.len() > 0 && s[0] == '+' {
        s.drop_first()
    } else {
        s
    }
}

/// Every character of `d` is a decimal digit.
pub open spec fn all_digits(d: Seq<char>) -> bool {
    forall|i: int| 0 <= i < d.len() ==> is_digit(#[trigger] d[i])
}

proof fn lemma_decimal_nonneg(d: Seq<char>)
    requires
        forall|j: int| 0 <= j < d.len() ==> is_digit(#[trigger] d[j]),
    ensures
        decimal_value(d) >= 0,
    decreases d.len(),
{
    if d.len() > 0 {
        assert(is_digit(d[d.len() - 1]));
        lemma_decimal_nonneg(d.drop_last());
    }
}

proof fn lemma_decimal_prefix_le(d: Seq<char>, i: int)
    requires
        0 <= i <= d.len(),
        forall|j: int| 0 <= j < d.len() ==> is_digit(#[trigger] d[j]),
    ensures
        decimal_value(d.take(i)) <= decimal_value(d),
    decreases d.len() - i,
{
    if i < d.len() {
        lemma_decimal_prefix_le(d, i + 1);
        assert(d.take(i + 1).drop_last() =~= d.take(i));
        assert(is_digit(d[i]));
        lemma_decimal_nonneg(d.take(i));
    } else {
        assert(d.take(i) =~= d);
    }
}

/// Parse an unsigned decimal integer no larger than `max`.
pub fn parse_unsigned(s: &str, max: u64) -> (r: Option<u64>)
    ensures
        match r {
            Some(v) => unsigned_value(s@, max as int) == Some(v as int),
            None => unsigned_value(s@, max as int) is None,
        },
{
    let cs = chars_of(s);
    let start: usize = if cs.len() > 0 && cs[0] == '+' { 1 } else { 0 };
    let ghost d = sign_stripped(s@);
    assert(d =~= cs@.skip(start as int));
    if cs.len() == start {
        return None;
    }
    let mut v: u64 = 0;
    let mut i: usize = start;
    while i < cs.len()
        invariant
            start <= i <= cs@.len(),
            cs@ == s@,
            d == cs@.skip(start as int),
            d == sign_stripped(s@),
            forall|j: int| 0 <= j < i - start ==> is_digit(#[trigger] d[j]),
            v as int == decimal_value(d.take(i - start)),
            v <= max,
        decreases cs.len() - i,
    {
        let c = cs[i];
        assert(d[i - start] == c);
        if !('0' <= c && c <= '9') {
            proof {
                assert(!is_digit(d[i - start]));
                assert(!all_digits(d));
            }
            return None;
        }
        let dv = (c as u32 - '0' as u32) as u64;
        assert(d.take(i - start + 1).drop_last() =~= d.take(i - start));
        if dv > max || v > (max - dv) / 10 {
            proof {
                assert forall|j: int| 0 <= j < i - start + 1 implies is_digit(#[trigger] d[j]) by {}
                assert(decimal_value(d.take(i - start + 1)) == v * 10 + dv);
                assert(v * 10 + dv > max) by (nonlinear_arith)
                    requires
                        dv > max || v > (max - dv) / 10,
                        v >= 0,
                        dv >= 0,
                ;
                if all_digits(d) {
                    lemma_decimal_prefix_le(d, i - start + 1);
                }
            }
            return None;
        }
        v = v * 10 + dv;
        i = i + 1;
    }
    assert(d.take(i - start) =~= d);
    Some(v)
}

/// The code point of `c` with ASCII letters in lower case.
pub open spec fn ascii_lower(c: char) -> u32 {
    if 'A' <= c && c <= 'Z' {
        ((c as u32) + 32) as u32
    } else {
        c as u32
    }
}

/// `str::eq_ignore_ascii_case`: equal once ASCII letters are lower-cased.
pub open spec fn eq_ignore_ascii_case(a: Seq<char>, b: Seq<char>) -> bool {
    a.len() == b.len() && forall|i: int| 0 <= i < a.len() ==> ascii_lower(#[trigger] a[i]) == ascii_lower(b[i])
}

fn lower_char(c: char) -> (r: u32)
    ensures
        r == ascii_lower(c),
{
    if 'A' <= c && c <= 'Z' {
        (c as u32) + 32
    } else {
        c as u32
    }
}

/// Whether two strings are equal ignoring the case of ASCII letters.
pub fn str_eq_ignore_ascii_case(a: &str, b: &str) -> (r: bool)
    ensures
        r == eq_ignore_ascii_case(a@, b@),
{
    let x = chars_of(a);
    let y = chars_of(b);
    if x.len() != y.len() {
        return false;
    }
    for i in 0..x.len()
        invariant
            x@ == a@,
            y@ == b@,
            x@.len() == y@.len(),
            forall|j: int| 0 <= j < i ==> ascii_lower(#[trigger] x@[j]) == ascii_lower(y@[j]),
    {
        if lower_char(x[i]) != lower_char(y[i]) {
            return false;
        }
    }
    true
}

} // verus!
