//! Syntax highlighting of the script editor: the character ranges of
//! keywords, numbers and comments, as found by the `regex` crate.

use vstd::prelude::*;

verus! {

/// `regex::Regex`, carried as an opaque value.
#[verifier::external_type_specification]
#[verifier::external_body]
pub struct ExRegex(regex::Regex);

/// Whether `regex::Regex::new` accepts `pattern`.
pub uninterp spec fn regex_accepts(pattern: Seq<char>) -> bool;

/// The byte ranges `(start, end)` that `regex::Regex::find_iter` yields, in
/// order, for the regular expression `pattern` on `haystack`.
pub uninterp spec fn regex_match_ranges(pattern: Seq<char>, haystack: Seq<char>) -> Seq<(usize, usize)>;

/// A compiled regular expression, with the pattern it was compiled from.
pub struct Pattern {
    source: String,
    compiled: regex::Regex,
}

impl Pattern {
    /// The pattern this regular expression was compiled from.
    pub closed spec fn source(&self) -> Seq<char> {
        self.source@
    }
}

/// Compile `pattern` with `regex::Regex::new`; `None` when the crate rejects
/// it. The contract names the outcome (`regex_accepts`) and keeps the pattern
/// with the compiled expression; it does not say which patterns are accepted.
#[verifier::external_body]
fn compile_pattern(pattern: &str) -> (r: Option<Pattern>)
    ensures
        r is Some == regex_accepts(pattern@),
        r matches Some(p) ==> p.source() == pattern@,
{
    match regex::Regex::new(pattern) {
        Ok(compiled) => Some(Pattern { source: pattern.to_string(), compiled }),
        Err(_) => None,
    }
}

/// The byte ranges of the successive non-overlapping matches that
/// `regex::Regex::find_iter` yields, as `(start, end)` pairs. The contract
/// names the ranges (`regex_match_ranges`) as a function of the pattern and
/// the text; it says nothing of what they are.
#[verifier::external_body]
fn match_ranges(p: &Pattern, text: &str) -> (r: Vec<(usize, usize)>)
    ensures
        r@ == regex_match_ranges(p.source(), text@),
{
    p.compiled.find_iter(text).map(|m| (m.start(), m.end())).collect()
}

// ── Character offsets ──────────────────────────────────────────────────────

/// The number of bytes of `c` in UTF-8.
pub open spec fn utf8_width(c: char) -> nat {
    if (c as u32) < 0x80 {
        1
    } else if (c as u32) < 0x800 {
        2
    } else if (c as u32) < 0x10000 {
        3
    } else {
        4
    }
}

/// The number of characters of `s` whose UTF-8 bytes all lie before byte
/// `b`: at a character boundary, the character offset of byte offset `b`.
pub open spec fn chars_before(s: Seq<char>, b: int) -> nat
    decreases s.len(),
{
    if s.len() == 0 {
        0
    } else if utf8_width(s[0]) <= b {
        1 + chars_before(s.drop_first(), b - utf8_width(s[0]))
    } else {
        0
    }
}

fn utf8_width_of(c: char) -> (w: usize)
    ensures
        w == utf8_width(c),
{
    let v = c as u32;
    if v < 0x80 {
        1
    } else if v < 0x800 {
        2
    } else if v < 0x10000 {
        3
    } else {
        4
    }
}

/// The character offset of byte offset `b` in a text with characters `cs`.
pub fn char_offset(cs: &Vec<char>, b: usize) -> (k: usize)
    ensures
        k == chars_before(cs@, b as int),
{
    let mut i: usize = 0;
    let mut rest: usize = b;
    assert(cs@.skip(0) =~= cs@);
    while i < cs.len()
        invariant
            i <= cs@.len(),
            rest <= b,
            chars_before(cs@, b as int) == i + chars_before(cs@.skip(i as int), rest as int),
        decreases cs.len() - i,
    {
        let w = utf8_width_of(cs[i]);
        assert(cs@.skip(i as int)[0] == cs@[i as int]);
        assert(cs@.skip(i as int).drop_first() =~= cs@.skip(i + 1));
        if w > rest {
            return i;
        }
        rest = rest - w;
        i = i + 1;
    }
    assert(cs@.skip(i as int) =~= Seq::<char>::empty());
    i
}

// ── Highlight spans ────────────────────────────────────────────────────────

/// What a highlighted range of the script is.
#[derive(Debug, Clone, Copy, PartialEq, Eq, Structural)]
pub enum HighlightClass {
    Keyword,
    Number,
    Comment,
}

/// A highlighted range of the script, in character offsets.
#[derive(Debug, Clone, Copy, PartialEq, Eq, Structural)]
pub struct HighlightSpan {
    pub class: HighlightClass,
    pub start: usize,
    pub end: usize,
}

/// Keywords of EisenScript.
pub const KEYWORD_PATTERN: &'static str = "\\b(set|rule|box|sphere|cylinder|line|dot|grid|triangle|if|else)\\b";

/// Numbers not glued to a word.
pub const NUMBER_PATTERN: &'static str = "(?m)(?<![A-Za-z_])[-+]?[0-9]*\\.?[0-9]+(?![A-Za-z_])";

/// Comments up to the end of the line.
pub const COMMENT_PATTERN: &'static str = "(?m)//.*$";

/// The spans of one class: each match of `pattern`, converted to character
/// offsets; none when the pattern does not compile.
pub open spec fn class_spans(pattern: Seq<char>, text: Seq<char>, class: HighlightClass) -> Seq<
    HighlightSpan,
> {
    if regex_accepts(pattern) {
        regex_match_ranges(pattern, text).map_values(
            |r: (usize, usize)|
                HighlightSpan {
                    class,
                    start: chars_before(text, r.0 as int) as usize,
                    end: chars_before(text, r.1 as int) as usize,
                },
        )
    } else {
        seq![]
    }
}

/// All spans: keywords, then numbers, then comments, each in match order.
pub open spec fn highlight_spans_of(text: Seq<char>) -> Seq<HighlightSpan> {
    class_spans(KEYWORD_PATTERN@, text, HighlightClass::Keyword) + class_spans(
        NUMBER_PATTERN@,
        text,
        HighlightClass::Number,
    ) + class_spans(COMMENT_PATTERN@, text, HighlightClass::Comment)
}

fn push_class_spans(
    out: &mut Vec<HighlightSpan>,
    pattern: &str,
    text: &str,
    cs: &Vec<char>,
    class: HighlightClass,
)
    requires
        cs@ == text@,
    ensures
        final(out)@ == old(out)@ + class_spans(pattern@, text@, class),
{
    match compile_pattern(pattern) {
        Some(p) => {
            let ranges = match_ranges(&p, text);
            let ghost before = out@;
            let ghost f = |r: (usize, usize)|
                HighlightSpan {
                    class,
                    start: chars_before(text@, r.0 as int) as usize,
                    end: chars_before(text@, r.1 as int) as usize,
                };
            for i in 0..ranges.len()
                invariant
                    cs@ == text@,
                    f == (|r: (usize, usize)|
                        HighlightSpan {
                            class,
                            start: chars_before(text@, r.0 as int) as usize,
                            end: chars_before(text@, r.1 as int) as usize,
                        }),
                    out@ == before + ranges@.take(i as int).map_values(f),
            {
                let (s, e) = ranges[i];
                let start = char_offset(cs, s);
                let end = char_offset(cs, e);
                out.push(HighlightSpan { class, start, end });
                assert(ranges@[i as int] == (s, e));
                assert(f(ranges@[i as int]) == HighlightSpan { class, start, end });
                assert(ranges@.take(i + 1) =~= ranges@.take(i as int).push(ranges@[i as int]));
                assert(out@ =~= before + ranges@.take(i + 1).map_values(f));
            }
            assert(ranges@.take(ranges@.len() as int) =~= ranges@);
        },
        None => {
            assert(out@ =~= old(out)@ + class_spans(pattern@, text@, class));
        },
    }
}

/// The ranges of the script to highlight: keywords, then numbers, then
/// comments, each in the order the matches appear.
pub fn highlight_spans(text: &str) -> (r: Vec<HighlightSpan>)
    ensures
        r@ == highlight_spans_of(text@),
{
    let cs = crate::text::chars_of(text);
    let mut out: Vec<HighlightSpan> = Vec::new();
    push_class_spans(&mut out, KEYWORD_PATTERN, text, &cs, HighlightClass::Keyword);
    push_class_spans(&mut out, NUMBER_PATTERN, text, &cs, HighlightClass::Number);
    push_class_spans(&mut out, COMMENT_PATTERN, text, &cs, HighlightClass::Comment);
    assert(out@ =~= highlight_spans_of(text@));
    out
}

} // verus!
