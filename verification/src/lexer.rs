//! EisenScript tokens. Tokens are the symbols `{`, `}`, `*` and `>`, and
//! words: runs of other characters up to white space or a symbol, where a
//! `[` opens a bracket that runs (spaces included) to its `]` on the same
//! line, as in `triangle[0 0 0; 1 0 0; 0 1 0]` or `[0 0 -20]`. Comments run
//! from `//` to the end of the line and from `/*` to `*/`; a line whose first
//! character that is not white space is `#` is a preprocessor line and is
//! skipped.

use vstd::prelude::*;

use crate::editor::{is_white_space, white_space_char};

verus! {

/// A token: the characters `s[start..end]` of the source, on line `line`
/// (counted from 1).
#[derive(Debug, Clone, Copy, PartialEq, Eq, Structural)]
pub struct Token {
    pub start: usize,
    pub end: usize,
    pub line: u32,
}

/// Where the scanner is.
#[derive(Debug, Clone, Copy, PartialEq, Eq, Structural)]
pub enum ScanMode {
    Normal,
    LineComment,
    BlockComment,
}

/// The four symbols.
pub open spec fn is_symbol(c: char) -> bool {
    c == '{' || c == '}' || c == '*' || c == '>'
}

/// The next line number (it stays at `u32::MAX` once there).
pub open spec fn next_line(line: u32) -> u32 {
    if line < u32::MAX {
        (line + 1) as u32
    } else {
        line
    }
}

/// Where the word starting at `i` ends; `in_bracket` once a `[` is open.
pub open spec fn word_end(s: Seq<char>, i: int, in_bracket: bool) -> int
    decreases s.len() - i,
{
    if i < 0 || i >= s.len() {
        i
    } else {
        let c = s[i];
        if c == '\n' {
            i
        } else if in_bracket {
            word_end(s, i + 1, c != ']')
        } else if is_white_space(c) || is_symbol(c) {
            i
        } else {
            word_end(s, i + 1, c == '[')
        }
    }
}

/// The tokens of `s` from position `i` on, with the scanner at the start of
/// a line or not, on line `line`, in mode `mode`.
pub open spec fn scan(s: Seq<char>, i: int, bol: bool, line: u32, mode: ScanMode) -> Seq<Token>
    decreases s.len() - i,
{
    if i < 0 || i >= s.len() {
        seq![]
    } else {
        let c = s[i];
        let two = |d: char| i + 1 < s.len() && s[i + 1] == d;
        match mode {
            ScanMode::LineComment => if c == '\n' {
                scan(s, i + 1, true, next_line(line), ScanMode::Normal)
            } else {
                scan(s, i + 1, bol, line, ScanMode::LineComment)
            },
            ScanMode::BlockComment => if c == '*' && two('/') {
                scan(s, i + 2, bol, line, ScanMode::Normal)
            } else if c == '\n' {
                scan(s, i + 1, true, next_line(line), ScanMode::BlockComment)
            } else {
                scan(s, i + 1, bol, line, ScanMode::BlockComment)
            },
            ScanMode::Normal => if c == '\n' {
                scan(s, i + 1, true, next_line(line), ScanMode::Normal)
            } else if is_white_space(c) {
                scan(s, i + 1, bol, line, ScanMode::Normal)
            } else if c == '#' && bol {
                scan(s, i + 1, bol, line, ScanMode::LineComment)
            } else if c == '/' && two('/') {
                scan(s, i + 2, bol, line, ScanMode::LineComment)
            } else if c == '/' && two('*') {
                scan(s, i + 2, bol, line, ScanMode::BlockComment)
            } else if is_symbol(c) {
                seq![Token { start: i as usize, end: (i + 1) as usize, line }] + scan(
                    s,
                    i + 1,
                    false,
                    line,
                    ScanMode::Normal,
                )
            } else {
                let j = word_end(s, i, false);
                proof {
                    lemma_word_end_bounds(s, i, false);
                }
                if j > i {
                    seq![Token { start: i as usize, end: j as usize, line }] + scan(
                        s,
                        j,
                        false,
                        line,
                        ScanMode::Normal,
                    )
                } else {
                    seq![]
                }
            },
        }
    }
}

/// The tokens of a source text.
pub open spec fn tokens(s: Seq<char>) -> Seq<Token> {
    scan(s, 0, true, 1, ScanMode::Normal)
}

/// Every token lies inside the text and is not empty.
pub open spec fn tokens_valid(s: Seq<char>, toks: Seq<Token>) -> bool {
    forall|k: int| 0 <= k < toks.len() ==> (#[trigger] toks[k]).start < toks[k].end <= s.len()
}

pub proof fn lemma_word_end_bounds(s: Seq<char>, i: int, b: bool)
    requires
        0 <= i <= s.len(),
    ensures
        i <= word_end(s, i, b) <= s.len(),
    decreases s.len() - i,
{
    if i < s.len() {
        let c = s[i];
        if c == '\n' {
        } else if b {
            lemma_word_end_bounds(s, i + 1, c != ']');
        } else if is_white_space(c) || is_symbol(c) {
        } else {
            lemma_word_end_bounds(s, i + 1, c == '[');
        }
    }
}

proof fn lemma_scan_valid(s: Seq<char>, i: int, bol: bool, line: u32, mode: ScanMode)
    requires
        0 <= i,
        s.len() <= usize::MAX,
    ensures
        tokens_valid(s, scan(s, i, bol, line, mode)),
    decreases s.len() - i,
{
    if i < s.len() {
        let c = s[i];
        let two = |d: char| i + 1 < s.len() && s[i + 1] == d;
        match mode {
            ScanMode::LineComment => if c == '\n' {
                lemma_scan_valid(s, i + 1, true, next_line(line), ScanMode::Normal);
            } else {
                lemma_scan_valid(s, i + 1, bol, line, ScanMode::LineComment);
            },
            ScanMode::BlockComment => if c == '*' && two('/') {
                lemma_scan_valid(s, i + 2, bol, line, ScanMode::Normal);
            } else if c == '\n' {
                lemma_scan_valid(s, i + 1, true, next_line(line), ScanMode::BlockComment);
            } else {
                lemma_scan_valid(s, i + 1, bol, line, ScanMode::BlockComment);
            },
            ScanMode::Normal => if c == '\n' {
                lemma_scan_valid(s, i + 1, true, next_line(line), ScanMode::Normal);
            } else if is_white_space(c) {
                lemma_scan_valid(s, i + 1, bol, line, ScanMode::Normal);
            } else if c == '#' && bol {
                lemma_scan_valid(s, i + 1, bol, line, ScanMode::LineComment);
            } else if c == '/' && two('/') {
                lemma_scan_valid(s, i + 2, bol, line, ScanMode::LineComment);
            } else if c == '/' && two('*') {
                lemma_scan_valid(s, i + 2, bol, line, ScanMode::BlockComment);
            } else if is_symbol(c) {
                lemma_scan_valid(s, i + 1, false, line, ScanMode::Normal);
                let t = Token { start: i as usize, end: (i + 1) as usize, line };
                let rest = scan(s, i + 1, false, line, ScanMode::Normal);
                assert forall|k: int| 0 <= k < (seq![t] + rest).len() implies (#[trigger] (seq![t]
                    + rest)[k]).start < (seq![t] + rest)[k].end <= s.len() by {
                    if k > 0 {
                        assert((seq![t] + rest)[k] == rest[k - 1]);
                    }
                }
            } else {
                let j = word_end(s, i, false);
                lemma_word_end_bounds(s, i, false);
                if j > i {
                    lemma_scan_valid(s, j, false, line, ScanMode::Normal);
                    let t = Token { start: i as usize, end: j as usize, line };
                    let rest = scan(s, j, false, line, ScanMode::Normal);
                    assert forall|k: int| 0 <= k < (seq![t] + rest).len() implies (#[trigger] (seq![
                        t,
                    ] + rest)[k]).start < (seq![t] + rest)[k].end <= s.len() by {
                        if k > 0 {
                            assert((seq![t] + rest)[k] == rest[k - 1]);
                        }
                    }
                }
            },
        }
    }
}

/// Whether `c` is one of the four symbols.
pub fn is_symbol_char(c: char) -> (b: bool)
    ensures
        b == is_symbol(c),
{
    c == '{' || c == '}' || c == '*' || c == '>'
}

fn find_word_end(cs: &Vec<char>, i: usize) -> (j: usize)
    requires
        i <= cs@.len(),
    ensures
        j == word_end(cs@, i as int, false),
{
    let mut k = i;
    let mut b = false;
    while k < cs.len()
        invariant
            i <= k <= cs@.len(),
            word_end(cs@, i as int, false) == word_end(cs@, k as int, b),
        decreases cs.len() - k,
    {
        let c = cs[k];
        if c == '\n' {
            return k;
        }
        if b {
            b = c != ']';
        } else {
            if white_space_char(c) || is_symbol_char(c) {
                return k;
            }
            b = c == '[';
        }
        k = k + 1;
    }
    k
}

/// The tokens of a source text, given as its characters.
pub fn tokenize(cs: &Vec<char>) -> (r: Vec<Token>)
    ensures
        r@ == tokens(cs@),
        tokens_valid(cs@, r@),
{
    let n = cs.len();
    proof {
        lemma_scan_valid(cs@, 0, true, 1, ScanMode::Normal);
    }
    let mut out: Vec<Token> = Vec::new();
    let mut i: usize = 0;
    let mut bol = true;
    let mut line: u32 = 1;
    let mut mode = ScanMode::Normal;
    while i < n
        invariant
            n == cs@.len(),
            i <= n,
            tokens(cs@) == out@ + scan(cs@, i as int, bol, line, mode),
            tokens_valid(cs@, tokens(cs@)),
        decreases n - i,
    {
        let c = cs[i];
        let two_slash = i + 1 < n && cs[i + 1] == '/';
        let two_star = i + 1 < n && cs[i + 1] == '*';
        let nl = if line < u32::MAX { line + 1 } else { line };
        match mode {
            ScanMode::LineComment => {
                if c == '\n' {
                    bol = true;
                    line = nl;
                    mode = ScanMode::Normal;
                }
                i = i + 1;
            },
            ScanMode::BlockComment => {
                if c == '*' && two_slash {
                    mode = ScanMode::Normal;
                    i = i + 2;
                } else {
                    if c == '\n' {
                        bol = true;
                        line = nl;
                    }
                    i = i + 1;
                }
            },
            ScanMode::Normal => {
                if c == '\n' {
                    bol = true;
                    line = nl;
                    i = i + 1;
                } else if white_space_char(c) {
                    i = i + 1;
                } else if c == '#' && bol {
                    mode = ScanMode::LineComment;
                    i = i + 1;
                } else if c == '/' && two_slash {
                    mode = ScanMode::LineComment;
                    i = i + 2;
                } else if c == '/' && two_star {
                    mode = ScanMode::BlockComment;
                    i = i + 2;
                } else if is_symbol_char(c) {
                    let ghost before = out@;
                    out.push(Token { start: i, end: i + 1, line });
                    assert(before + scan(cs@, i as int, bol, line, mode) =~= out@ + scan(
                        cs@,
                        i + 1,
                        false,
                        line,
                        ScanMode::Normal,
                    ));
                    bol = false;
                    i = i + 1;
                } else {
                    let j = find_word_end(cs, i);
                    proof {
                        lemma_word_end_bounds(cs@, i as int, false);
                    }
                    if j > i {
                        let ghost before = out@;
                        out.push(Token { start: i, end: j, line });
                        assert(before + scan(cs@, i as int, bol, line, mode) =~= out@ + scan(
                            cs@,
                            j as int,
                            false,
                            line,
                            ScanMode::Normal,
                        ));
                        bol = false;
                        i = j;
                    } else {
                        assert(scan(cs@, i as int, bol, line, mode) =~= Seq::<Token>::empty());
                        assert(out@ + Seq::<Token>::empty() =~= out@);
                        return out;
                    }
                }
            },
        }
    }
    assert(out@ + Seq::<Token>::empty() =~= out@);
    out
}

} // verus!
