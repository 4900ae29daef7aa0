//! Editor-side text work: rewriting the value of a `#define` line,
//! completing the word before the cursor, and reading the seed field.

use vstd::prelude::*;

use crate::obj::{compare_strings, lemma_seq_less_total, lemma_seq_less_transitive, seq_less};
use crate::primitive::str_eq;
use crate::text::{
    chars_of, find_in, find_in_range, lemma_find_in_bounds, lemma_find_in_subrange,
    lemma_find_none_absent, lemma_find_skips, line_at, lines, lines_from, matches_at, occurs_at,
    parse_unsigned, strip_cr, unsigned_value,
};

verus! {

/// `#define NAME ` — the start of a define line for `name`.
pub open spec fn define_prefix(name: Seq<char>) -> Seq<char> {
    seq!['#', 'd', 'e', 'f', 'i', 'n', 'e', ' '] + name + seq![' ']
}

/// The GUI annotation that follows the value on a define line: everything
/// from the first ` (` of the text after the prefix, or nothing.
pub open spec fn define_meta(rest: Seq<char>) -> Seq<char> {
    match find_in(rest, seq![' ', '('], 0, rest.len() as int) {
        Some(i) => rest.skip(i),
        None => seq![],
    }
}

/// One line after rewriting: a `#define NAME ` line gets the new value and
/// keeps its annotation; any other line is unchanged.
pub open spec fn rewrite_line(l: Seq<char>, name: Seq<char>, value: Seq<char>) -> Seq<char> {
    let p = define_prefix(name);
    if p.is_prefix_of(l) {
        p + value + define_meta(l.skip(p.len() as int))
    } else {
        l
    }
}

/// The source from position `start` on with each line (as `str::lines`
/// delimits it) rewritten and its line ending (`\n`, `\r\n`, or none at the
/// end) kept as it was.
pub open spec fn rewrite_from(s: Seq<char>, name: Seq<char>, value: Seq<char>, start: int) -> Seq<
    char,
>
    decreases s.len() - start,
{
    if start < 0 || start >= s.len() {
        seq![]
    } else {
        match find_in(s, seq!['\n'], start, s.len() as int) {
            None => rewrite_line(s.subrange(start, s.len() as int), name, value),
            Some(k) => if start <= k < s.len() {
                let content = strip_cr(s.subrange(start, k));
                rewrite_line(content, name, value) + s.subrange(start + content.len(), k + 1)
                    + rewrite_from(s, name, value, k + 1)
            } else {
                seq![]
            },
        }
    }
}

/// The whole source with each of its lines rewritten, line endings kept.
pub open spec fn rewrite_define(src: Seq<char>, name: Seq<char>, value: Seq<char>) -> Seq<char> {
    rewrite_from(src, name, value, 0)
}

/// None of the lines `ls` is a define line for `name`.
pub open spec fn no_define_line(ls: Seq<Seq<char>>, name: Seq<char>) -> bool {
    forall|i: int| 0 <= i < ls.len() ==> !define_prefix(name).is_prefix_of(#[trigger] ls[i])
}

proof fn lemma_rewrite_from_noop(s: Seq<char>, name: Seq<char>, value: Seq<char>, start: int)
    requires
        0 <= start <= s.len(),
        no_define_line(lines_from(s, start), name),
    ensures
        rewrite_from(s, name, value, start) == s.skip(start),
    decreases s.len() - start,
{
    if start == s.len() {
        assert(s.skip(start) =~= Seq::<char>::empty());
    } else {
        let nl = seq!['\n'];
        lemma_find_in_bounds(s, nl, start, s.len() as int);
        match find_in(s, nl, start, s.len() as int) {
            None => {
                assert(lines_from(s, start)[0] == s.subrange(start, s.len() as int));
                assert(s.subrange(start, s.len() as int) =~= s.skip(start));
            },
            Some(k) => {
                let raw = s.subrange(start, k);
                let content = strip_cr(raw);
                let ls = lines_from(s, start);
                assert(ls[0] == content);
                assert(ls.drop_first() =~= lines_from(s, k + 1));
                assert forall|i: int| 0 <= i < lines_from(s, k + 1).len() implies !define_prefix(
                    name,
                ).is_prefix_of(#[trigger] lines_from(s, k + 1)[i]) by {
                    assert(lines_from(s, k + 1)[i] == ls[i + 1]);
                }
                lemma_rewrite_from_noop(s, name, value, k + 1);
                assert(content =~= s.subrange(start, start + content.len()));
                assert(s.skip(start) =~= content + s.subrange(start + content.len(), k + 1) + s.skip(
                    k + 1,
                ));
            },
        }
    }
}

/// A source none of whose lines is a define line for `name` comes back
/// unchanged, byte for byte.
pub proof fn lemma_rewrite_noop(src: Seq<char>, name: Seq<char>, value: Seq<char>)
    requires
        no_define_line(lines(src), name),
    ensures
        rewrite_define(src, name, value) == src,
{
    lemma_rewrite_from_noop(src, name, value, 0);
    assert(src.skip(0) =~= src);
}

/// Rewriting a define line keeps its GUI annotation, so that the slider
/// range survives any number of re-runs, as long as the new value holds no
/// ` (` of its own.
pub proof fn lemma_rewrite_keeps_meta(l: Seq<char>, name: Seq<char>, value: Seq<char>)
    requires
        define_prefix(name).is_prefix_of(l),
        find_in(value, seq![' ', '('], 0, value.len() as int) is None,
    ensures
        define_prefix(name).is_prefix_of(rewrite_line(l, name, value)),
        define_meta(rewrite_line(l, name, value).skip(define_prefix(name).len() as int))
            == define_meta(l.skip(define_prefix(name).len() as int)),
{
    let p = define_prefix(name);
    let sep = seq![' ', '('];
    let rest = l.skip(p.len() as int);
    let m = define_meta(rest);
    let r = rewrite_line(l, name, value);
    assert(r == p + value + m);
    assert(r.take(p.len() as int) =~= p);
    let t = value + m;
    assert(r.skip(p.len() as int) =~= t);
    let vl = value.len() as int;
    assert forall|j: int| 0 <= j < vl && j + 2 <= t.len() implies !#[trigger] occurs_at(t, sep, j) by {
        if j + 2 <= vl {
            lemma_find_none_absent(value, sep, 0, vl, j);
            assert(t.subrange(j, j + 2) =~= value.subrange(j, j + 2));
        } else {
            assert(m.len() > 0);
            lemma_find_in_bounds(rest, sep, 0, rest.len() as int);
            let i = find_in(rest, sep, 0, rest.len() as int)->0;
            assert(m == rest.skip(i));
            assert(rest.subrange(i, i + 2) =~= sep);
            assert(m[0] == rest[i]);
            assert(t[j + 1] == m[0]);
            assert(t.subrange(j, j + 2)[1] == t[j + 1]);
        }
    }
    if m.len() > 0 {
        lemma_find_in_bounds(rest, sep, 0, rest.len() as int);
        let i = find_in(rest, sep, 0, rest.len() as int)->0;
        assert(m == rest.skip(i));
        assert(rest.subrange(i, i + 2) =~= sep);
        assert(t.subrange(vl, vl + 2) =~= sep) by {
            assert(t.subrange(vl, vl + 2) =~= m.subrange(0, 2));
            assert(m.subrange(0, 2) =~= rest.subrange(i, i + 2));
        }
        lemma_find_skips(t, sep, 0, vl, t.len() as int);
        assert(define_meta(t) == t.skip(vl));
        assert(t.skip(vl) =~= m);
    } else {
        assert(t =~= value);
        assert(define_meta(t) =~= Seq::<char>::empty());
    }
}

/// Rewrite a `#define NAME value [gui-metadata]` line in `source` with a new value.
///
/// The GUI type annotation `(float:lo-hi)` or `(int:lo-hi)` at the end of
/// the line is preserved so the slider range survives re-runs. Every other
/// line, and every line ending, is left as it was.
pub fn rewrite_define_value(source: &str, name: &str, new_value: &str) -> (r: String)
    ensures
        r@ == rewrite_define(source@, name@, new_value@),
        no_define_line(lines(source@), name@) ==> r@ == source@,
{
    proof {
        if no_define_line(lines(source@), name@) {
            lemma_rewrite_noop(source@, name@, new_value@);
        }
    }
    let cs = chars_of(source);
    let mut prefix = String::from_str("#define ");
    prefix.append(name);
    prefix.append(" ");
    proof {
        reveal_strlit("#define ");
        reveal_strlit(" ");
        assert(prefix@ =~= define_prefix(name@));
    }
    let pcs = chars_of(prefix.as_str());
    let plen = pcs.len();
    let mut open_paren: Vec<char> = Vec::new();
    open_paren.push(' ');
    open_paren.push('(');
    assert(open_paren@ =~= seq![' ', '(']);
    let n = cs.len();
    let ghost total = rewrite_define(cs@, name@, new_value@);
    let mut out = String::new();
    let mut start: usize = 0;
    while start < n
        invariant
            n == cs@.len(),
            cs@ == source@,
            pcs@ == define_prefix(name@),
            prefix@ == define_prefix(name@),
            plen == pcs@.len(),
            open_paren@ == seq![' ', '('],
            total == rewrite_define(cs@, name@, new_value@),
            start <= n,
            total == out@ + rewrite_from(cs@, name@, new_value@, start as int),
        decreases n - start,
    {
        let (end, next) = line_at(&cs, start);
        let ghost line = cs@.subrange(start as int, end as int);
        let ghost f = rewrite_line(line, name@, new_value@);
        proof {
            let nl = seq!['\n'];
            match find_in(cs@, nl, start as int, n as int) {
                Some(k) => {
                    assert(strip_cr(cs@.subrange(start as int, k)) == line);
                    assert(start + line.len() == end);
                },
                None => {
                    assert(end == n && next == n);
                    assert(cs@.subrange(end as int, next as int) =~= Seq::<char>::empty());
                    assert(rewrite_from(cs@, name@, new_value@, next as int) =~= Seq::<char>::empty());
                },
            }
            assert(rewrite_from(cs@, name@, new_value@, start as int) =~= f + cs@.subrange(
                end as int,
                next as int,
            ) + rewrite_from(cs@, name@, new_value@, next as int));
        }
        let ghost before = out@;
        let is_define = plen <= end - start && matches_at(&cs, &pcs, start);
        if is_define {
            assert(pcs@.is_prefix_of(line)) by {
                assert(cs@.subrange(start as int, start + plen) =~= line.subrange(0, plen as int));
            }
            out.append(prefix.as_str());
            out.append(new_value);
            let m = find_in_range(&cs, &open_paren, start + plen, end);
            proof {
                lemma_find_in_subrange(
                    cs@,
                    seq![' ', '('],
                    start + plen,
                    end as int,
                    0,
                    end - start - plen,
                );
                assert(line.skip(plen as int) =~= cs@.subrange(start + plen, end as int));
                lemma_find_in_bounds(cs@, seq![' ', '('], start + plen, end as int);
            }
            let ghost rest = line.skip(plen as int);
            assert(rest.len() == end - start - plen);
            assert(f == pcs@ + new_value@ + define_meta(rest));
            match m {
                Some(j) => {
                    let meta = source.substring_char(j, end);
                    assert(meta@ =~= line.skip(plen as int).skip(j - start - plen));
                    assert(define_meta(rest) == rest.skip(j - start - plen));
                    out.append(meta);
                },
                None => {
                    assert(define_meta(rest) =~= Seq::<char>::empty());
                },
            }
            assert(out@ =~= before + f);
        } else {
            assert(!pcs@.is_prefix_of(line)) by {
                if pcs@.is_prefix_of(line) {
                    assert(cs@.subrange(start as int, start + plen) =~= line.subrange(0, plen as int));
                }
            }
            let piece = source.substring_char(start, end);
            out.append(piece);
            assert(out@ =~= before + f);
        }
        let ending = source.substring_char(end, next);
        out.append(ending);
        assert(out@ =~= before + f + cs@.subrange(end as int, next as int));
        start = next;
    }
    assert(rewrite_from(cs@, name@, new_value@, start as int) =~= Seq::<char>::empty());
    assert(out@ =~= total);
    out
}

// ── Autocomplete ───────────────────────────────────────────────────────────

/// The words that autocomplete offers.
pub const AUTOCOMPLETE_KEYWORDS: [&'static str; 33] = [
    "set", "rule", "box", "sphere", "cylinder", "line", "dot", "grid", "triangle", "x", "y", "z",
    "s", "rx", "ry", "rz", "hue", "sat", "b", "a", "alpha", "minsize", "maxdepth", "maxobjects",
    "background", "seed", "translation", "rotation", "pivot", "scale", "camera", "if", "else",
];

/// What `str::to_lowercase` gives for `s` (the Unicode lowercase mapping).
pub uninterp spec fn unicode_lowercase(s: Seq<char>) -> Seq<char>;

/// `str::to_lowercase`. The contract names the result (`unicode_lowercase`)
/// as a function of the text; the Unicode case mapping itself is not stated.
#[verifier::external_body]
fn lowercase(s: &str) -> (r: String)
    ensures
        r@ == unicode_lowercase(s@),
{
    s.to_lowercase()
}

/// The Unicode `White_Space` characters, which `str::trim` removes.
pub open spec fn is_white_space(c: char) -> bool {
    let v = c as u32;
    (0x09 <= v && v <= 0x0d) || v == 0x20 || v == 0x85 || v == 0xa0 || v == 0x1680 || (0x2000 <= v
        && v <= 0x200a) || v == 0x2028 || v == 0x2029 || v == 0x202f || v == 0x205f || v == 0x3000
}

/// The text is empty once trimmed.
pub open spec fn blank(s: Seq<char>) -> bool {
    forall|i: int| 0 <= i < s.len() ==> is_white_space(#[trigger] s[i])
}

/// A keyword that completes `lower`: it starts with it and is longer.
pub open spec fn completes(lower: Seq<char>, kw: Seq<char>) -> bool {
    lower.is_prefix_of(kw) && kw != lower
}

/// Whether `c` is Unicode white space.
pub fn white_space_char(c: char) -> (b: bool)
    ensures
        b == is_white_space(c),
{
    let v = c as u32;
    (0x09 <= v && v <= 0x0d) || v == 0x20 || v == 0x85 || v == 0xa0 || v == 0x1680 || (0x2000 <= v
        && v <= 0x200a) || v == 0x2028 || v == 0x2029 || v == 0x202f || v == 0x205f || v == 0x3000
}

/// The keyword that autocomplete puts in place of the word `prefix` before
/// the cursor: of the keywords that complete its lower-case form, the first in
/// code-point order. `None` for a blank word or when no keyword completes it.
pub fn autocomplete_suggestion(prefix: &str) -> (r: Option<String>)
    ensures
        match r {
            Some(k) => {
                &&& !blank(prefix@)
                &&& completes(unicode_lowercase(prefix@), k@)
                &&& exists|i: int| 0 <= i < 33 && AUTOCOMPLETE_KEYWORDS[i]@ == k@
                &&& forall|i: int|
                    0 <= i < 33 && completes(unicode_lowercase(prefix@), #[trigger] AUTOCOMPLETE_KEYWORDS[i]@)
                        ==> k@ == AUTOCOMPLETE_KEYWORDS[i]@ || seq_less(k@, AUTOCOMPLETE_KEYWORDS[i]@)
            },
            None => blank(prefix@) || forall|i: int|
                0 <= i < 33 ==> !completes(unicode_lowercase(prefix@), #[trigger] AUTOCOMPLETE_KEYWORDS[i]@),
        },
{
    let pcs = chars_of(prefix);
    let mut all_white = true;
    for i in 0..pcs.len()
        invariant
            pcs@ == prefix@,
            all_white == (forall|j: int| 0 <= j < i ==> is_white_space(#[trigger] pcs@[j])),
    {
        if !white_space_char(pcs[i]) {
            all_white = false;
        }
    }
    if all_white {
        return None;
    }
    let lower = lowercase(prefix);
    let lcs = chars_of(lower.as_str());
    let keywords = AUTOCOMPLETE_KEYWORDS;
    let mut best: Option<String> = None;
    for i in 0..33usize
        invariant
            keywords == AUTOCOMPLETE_KEYWORDS,
            lcs@ == unicode_lowercase(prefix@),
            lower@ == lcs@,
            match best {
                Some(k) => {
                    &&& completes(lcs@, k@)
                    &&& exists|j: int| 0 <= j < i && keywords[j]@ == k@
                    &&& forall|j: int|
                        0 <= j < i && completes(lcs@, #[trigger] keywords[j]@) ==> k@ == keywords[j]@
                            || seq_less(k@, keywords[j]@)
                },
                None => forall|j: int| 0 <= j < i ==> !completes(lcs@, #[trigger] keywords[j]@),
            },
    {
        let kw = keywords[i].to_string();
        let kcs = chars_of(keywords[i]);
        let is_prefix = matches_at(&kcs, &lcs, 0);
        assert(is_prefix == lcs@.is_prefix_of(kw@)) by {
            if lcs@.len() <= kw@.len() {
                assert(kw@.subrange(0, lcs@.len() as int) =~= kw@.take(lcs@.len() as int));
            }
        }
        let same = str_eq(keywords[i], lower.as_str());
        assert(kw@ == keywords[i as int]@);
        assert((is_prefix && !same) == completes(lcs@, keywords[i as int]@));
        if is_prefix && !same {
            let better = match &best {
                None => true,
                Some(b) => compare_strings(&kw, b) < 0,
            };
            if better {
                proof {
                    if let Some(b) = &best {
                        assert forall|j: int|
                            0 <= j < i + 1 && completes(lcs@, #[trigger] keywords[j]@) implies kw@
                            == keywords[j]@ || seq_less(kw@, keywords[j]@) by {
                            if j < i && b@ != keywords[j]@ {
                                lemma_seq_less_transitive(kw@, b@, keywords[j]@);
                            }
                        }
                    }
                }
                best = Some(kw);
                assert(keywords[i as int]@ == kw@);
            } else {
                proof {
                    if let Some(b) = &best {
                        lemma_seq_less_total(kw@, b@);
                    }
                }
            }
        }
    }
    best
}

// ── Toolbar input ──────────────────────────────────────────────────────────

/// `s` without its leading white space.
pub open spec fn trim_start(s: Seq<char>) -> Seq<char>
    decreases s.len(),
{
    if s.len() > 0 && is_white_space(s[0]) {
        trim_start(s.drop_first())
    } else {
        s
    }
}

/// `s` without its trailing white space.
pub open spec fn trim_end(s: Seq<char>) -> Seq<char>
    decreases s.len(),
{
    if s.len() > 0 && is_white_space(s.last()) {
        trim_end(s.drop_last())
    } else {
        s
    }
}

/// `str::trim`: without leading and trailing white space.
pub open spec fn trimmed(s: Seq<char>) -> Seq<char> {
    trim_end(trim_start(s))
}

proof fn lemma_trim_start_at(s: Seq<char>, a: int)
    requires
        0 <= a <= s.len(),
        forall|j: int| 0 <= j < a ==> is_white_space(#[trigger] s[j]),
        a == s.len() || !is_white_space(s[a]),
    ensures
        trim_start(s) == s.skip(a),
    decreases a,
{
    if a > 0 {
        assert forall|j: int| 0 <= j < a - 1 implies is_white_space(#[trigger] s.drop_first()[j]) by {
            assert(s.drop_first()[j] == s[j + 1]);
        }
        if a < s.len() {
            assert(s.drop_first()[a - 1] == s[a]);
        }
        lemma_trim_start_at(s.drop_first(), a - 1);
        assert(s.drop_first().skip(a - 1) =~= s.skip(a));
    } else {
        assert(s.skip(0) =~= s);
    }
}

proof fn lemma_trim_end_at(s: Seq<char>, b: int)
    requires
        0 <= b <= s.len(),
        forall|j: int| b <= j < s.len() ==> is_white_space(#[trigger] s[j]),
        b == 0 || !is_white_space(s[b - 1]),
    ensures
        trim_end(s) == s.take(b),
    decreases s.len() - b,
{
    if b < s.len() {
        assert forall|j: int| b <= j < s.len() - 1 implies is_white_space(#[trigger] s.drop_last()[j]) by {
            assert(s.drop_last()[j] == s[j]);
        }
        if b > 0 {
            assert(s.drop_last()[b - 1] == s[b - 1]);
        }
        lemma_trim_end_at(s.drop_last(), b);
        assert(s.drop_last().take(b) =~= s.take(b));
    } else {
        assert(s.take(b) =~= s);
    }
}

/// `str::trim`: the text without leading and trailing white space.
pub fn trim_text(text: &str) -> (r: &str)
    ensures
        r@ == trimmed(text@),
{
    let cs = chars_of(text);
    let n = cs.len();
    let mut a: usize = 0;
    while a < n && white_space_char(cs[a])
        invariant
            cs@ == text@,
            n == cs@.len(),
            a <= n,
            forall|j: int| 0 <= j < a ==> is_white_space(#[trigger] cs@[j]),
        decreases n - a,
    {
        a = a + 1;
    }
    proof {
        lemma_trim_start_at(cs@, a as int);
    }
    let ghost t = cs@.skip(a as int);
    let mut b: usize = n;
    while b > a && white_space_char(cs[b - 1])
        invariant
            cs@ == text@,
            n == cs@.len(),
            a <= b <= n,
            t == cs@.skip(a as int),
            forall|j: int| b <= j < n ==> is_white_space(#[trigger] cs@[j]),
        decreases b - a,
    {
        b = b - 1;
    }
    proof {
        assert forall|j: int| b - a <= j < t.len() implies is_white_space(#[trigger] t[j]) by {
            assert(t[j] == cs@[j + a]);
        }
        if b > a {
            assert(t[b - a - 1] == cs@[b - 1]);
        }
        lemma_trim_end_at(t, b - a);
        assert(t.take(b - a) =~= cs@.subrange(a as int, b as int));
    }
    text.substring_char(a, b)
}

/// The seed typed into the toolbar: the trimmed text as an unsigned 64-bit
/// number, or `None` (the seed stays as it was) when it is not one.
pub fn parse_seed(text: &str) -> (r: Option<u64>)
    ensures
        match r {
            Some(v) => unsigned_value(trimmed(text@), u64::MAX as int) == Some(v as int),
            None => unsigned_value(trimmed(text@), u64::MAX as int) is None,
        },
{
    parse_unsigned(trim_text(text), u64::MAX)
}

} // verus!
