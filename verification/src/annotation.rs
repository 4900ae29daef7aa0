//! The `// @rs-camera: {...}` annotation that can be embedded as the first
//! line of an EisenScript file so that the camera is restored on open. The
//! camera's JSON text is made and read by the caller; this module places the
//! annotation in the script and finds it again.

use vstd::prelude::*;

use crate::text::{
    chars_of, find_in, join, line_at, lines, lines_from, lemma_find_none, lemma_find_skips,
    lemma_join_push, matches_at, occurs_at, strip_cr,
};

verus! {

/// The start of a camera annotation line.
pub const ANNOTATION_PREFIX: &'static str = "// @rs-camera: ";

/// The annotation line for a camera whose JSON text is `json`.
pub open spec fn annotation_text(json: Seq<char>) -> Seq<char> {
    ANNOTATION_PREFIX@ + json
}

/// The annotation line for a camera whose JSON text is `json`.
pub fn annotation_line(json: &str) -> (r: String)
    ensures
        r@ == annotation_text(json@),
{
    let mut r = String::from_str(ANNOTATION_PREFIX);
    r.append(json);
    r
}

/// The script with `annotation` as its first line: it replaces a first line
/// that is already a camera annotation, and is put before the script
/// otherwise (alone, for an empty script). The lines are rejoined with `\n`.
pub open spec fn annotated(source: Seq<char>, annotation: Seq<char>) -> Seq<char> {
    let ls = lines(source);
    if ls.len() > 0 && ANNOTATION_PREFIX@.is_prefix_of(ls[0]) {
        join(seq![annotation] + ls.drop_first(), seq!['\n'])
    } else if source.len() == 0 {
        annotation
    } else {
        annotation + seq!['\n'] + source
    }
}

/// The text after the prefix of a first line that is a camera annotation.
pub open spec fn annotation_payload_of(source: Seq<char>) -> Option<Seq<char>> {
    let ls = lines(source);
    if ls.len() > 0 && ANNOTATION_PREFIX@.is_prefix_of(ls[0]) {
        Some(ls[0].skip(ANNOTATION_PREFIX@.len() as int))
    } else {
        None
    }
}

/// Whether the line `cs[start..end]` starts with the annotation prefix.
fn line_has_prefix(cs: &Vec<char>, pcs: &Vec<char>, start: usize, end: usize) -> (b: bool)
    requires
        start <= end <= cs@.len(),
    ensures
        b == pcs@.is_prefix_of(cs@.subrange(start as int, end as int)),
{
    let plen = pcs.len();
    if plen <= end - start && matches_at(cs, pcs, start) {
        assert(cs@.subrange(start as int, start + plen) =~= cs@.subrange(
            start as int,
            end as int,
        ).subrange(0, plen as int));
        true
    } else {
        proof {
            if pcs@.is_prefix_of(cs@.subrange(start as int, end as int)) {
                assert(cs@.subrange(start as int, start + plen) =~= cs@.subrange(
                    start as int,
                    end as int,
                ).subrange(0, plen as int));
            }
        }
        false
    }
}

/// Insert or replace the camera annotation at the top of `source`.
pub fn insert_annotation(source: &str, annotation: &str) -> (r: String)
    ensures
        r@ == annotated(source@, annotation@),
{
    let cs = chars_of(source);
    let pcs = chars_of(ANNOTATION_PREFIX);
    let n = cs.len();
    let ghost ls = lines(cs@);
    proof {
        reveal_strlit("\n");
    }
    if n == 0 {
        assert(ls =~= Seq::<Seq<char>>::empty());
        return annotation.to_string();
    }
    let (end, next) = line_at(&cs, 0);
    assert(ls[0] == cs@.subrange(0, end as int));
    if !line_has_prefix(&cs, &pcs, 0, end) {
        let mut r = annotation.to_string();
        r.append("\n");
        r.append(source);
        return r;
    }
    let mut out = annotation.to_string();
    let ghost rest = ls.drop_first();
    assert(lines_from(cs@, next as int) == rest);
    let ghost mut count: int = 0;
    let mut start = next;
    while start < n
        invariant
            n == cs@.len(),
            cs@ == source@,
            "\n"@ == seq!['\n'],
            rest == lines(cs@).drop_first(),
            0 <= count <= rest.len(),
            start <= n,
            lines_from(cs@, start as int) == rest.skip(count),
            out@ == join(seq![annotation@] + rest.take(count), seq!['\n']),
        decreases n - start,
    {
        let (e, nx) = line_at(&cs, start);
        let ghost line = cs@.subrange(start as int, e as int);
        assert(lines_from(cs@, start as int).len() >= 1);
        assert(count < rest.len());
        assert(rest.skip(count)[0] == line);
        assert(rest.skip(count + 1) =~= rest.skip(count).drop_first());
        let piece = source.substring_char(start, e);
        out.append("\n");
        out.append(piece);
        proof {
            assert(seq![annotation@] + rest.take(count + 1) =~= (seq![annotation@] + rest.take(
                count,
            )).push(line));
            lemma_join_push(seq![annotation@] + rest.take(count), line, seq!['\n']);
            count = count + 1;
        }
        start = nx;
    }
    proof {
        assert(lines_from(cs@, start as int) =~= Seq::<Seq<char>>::empty());
        assert(rest.take(count) =~= rest);
    }
    out
}

/// The camera JSON text of a first line that is a camera annotation, or
/// `None` when the first line is not one.
pub fn annotation_payload(source: &str) -> (r: Option<String>)
    ensures
        match r {
            Some(p) => annotation_payload_of(source@) == Some(p@),
            None => annotation_payload_of(source@) is None,
        },
{
    let cs = chars_of(source);
    let pcs = chars_of(ANNOTATION_PREFIX);
    let n = cs.len();
    if n == 0 {
        assert(lines(cs@) =~= Seq::<Seq<char>>::empty());
        return None;
    }
    let (end, _next) = line_at(&cs, 0);
    assert(lines(cs@)[0] == cs@.subrange(0, end as int));
    if !line_has_prefix(&cs, &pcs, 0, end) {
        return None;
    }
    let p = source.substring_char(pcs.len(), end);
    assert(p@ =~= cs@.subrange(0, end as int).skip(pcs@.len() as int));
    Some(p.to_string())
}

// ── Reading back what was written ──────────────────────────────────────────

/// A line without `\n`, not ending in `\r`, followed by nothing or by a
/// `\n`, is the first line of the text.
proof fn lemma_first_line(a: Seq<char>, tail: Seq<char>)
    requires
        a.len() > 0,
        !a.contains('\n'),
        a.last() != '\r',
        tail.len() == 0 || tail[0] == '\n',
    ensures
        lines(a + tail).len() > 0,
        lines(a + tail)[0] == a,
{
    let t = a + tail;
    let nl = seq!['\n'];
    assert forall|j: int| 0 <= j < a.len() implies !#[trigger] occurs_at(t, nl, j) by {
        if occurs_at(t, nl, j) {
            assert(t.subrange(j, j + 1)[0] == t[j]);
            assert(t[j] == a[j]);
            assert(a.contains('\n'));
        }
    }
    if tail.len() > 0 {
        assert(occurs_at(t, nl, a.len() as int)) by {
            assert(t.subrange(a.len() as int, a.len() + 1int) =~= nl);
        }
        lemma_find_skips(t, nl, 0, a.len() as int, t.len() as int);
        assert(find_in(t, nl, a.len() as int, t.len() as int) == Some(a.len() as int));
        assert(t.subrange(0, a.len() as int) =~= a);
        assert(strip_cr(a) == a);
    } else {
        lemma_find_none(t, nl, 0, t.len() as int);
        assert(t.subrange(0, t.len() as int) =~= a);
    }
}

/// Joining pieces after a first piece: the first piece, then the rest joined,
/// behind a separator.
proof fn lemma_join_front(a: Seq<char>, r: Seq<Seq<char>>, sep: Seq<char>)
    ensures
        join(seq![a] + r, sep) == if r.len() == 0 {
            a
        } else {
            a + sep + join(r, sep)
        },
    decreases r.len(),
{
    if r.len() > 0 {
        lemma_join_front(a, r.drop_last(), sep);
        assert((seq![a] + r).drop_last() =~= seq![a] + r.drop_last());
        assert((seq![a] + r).last() == r.last());
        if r.len() == 1 {
            assert(r.drop_last() =~= Seq::<Seq<char>>::empty());
        }
    } else {
        assert(seq![a] + r =~= seq![a]);
    }
}

/// Reading the annotation back from a script it was written into gives the
/// camera JSON that was written, whatever the script held before, when the
/// JSON is one line (no `\n`, no final `\r`).
pub proof fn lemma_annotation_round_trip(source: Seq<char>, json: Seq<char>)
    requires
        !json.contains('\n'),
        json.len() > 0 ==> json.last() != '\r',
    ensures
        annotation_payload_of(annotated(source, annotation_text(json))) == Some(json),
{
    let a = annotation_text(json);
    reveal_strlit("// @rs-camera: ");
    assert(!a.contains('\n')) by {
        if a.contains('\n') {
            let i = choose|i: int| 0 <= i < a.len() && a[i] == '\n';
            if i >= ANNOTATION_PREFIX@.len() {
                assert(json[i - ANNOTATION_PREFIX@.len()] == '\n');
            }
        }
    }
    assert(a.last() != '\r') by {
        if json.len() > 0 {
            assert(a.last() == json.last());
        }
    }
    let ls = lines(source);
    let t = annotated(source, a);
    if ls.len() > 0 && ANNOTATION_PREFIX@.is_prefix_of(ls[0]) {
        lemma_join_front(a, ls.drop_first(), seq!['\n']);
        if ls.drop_first().len() == 0 {
            assert(t =~= a + Seq::<char>::empty());
            lemma_first_line(a, Seq::<char>::empty());
        } else {
            let tail = seq!['\n'] + join(ls.drop_first(), seq!['\n']);
            assert(t =~= a + tail);
            lemma_first_line(a, tail);
        }
    } else if source.len() == 0 {
        assert(t =~= a + Seq::<char>::empty());
        lemma_first_line(a, Seq::<char>::empty());
    } else {
        let tail = seq!['\n'] + source;
        assert(t =~= a + tail);
        lemma_first_line(a, tail);
    }
    assert(ANNOTATION_PREFIX@.is_prefix_of(a));
    assert(a.skip(ANNOTATION_PREFIX@.len() as int) =~= json);
}

} // verus!
