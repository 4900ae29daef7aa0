//! EisenScript parser.
//!
//! The grammar, over the tokens of `lexer`:
//!
//! ```text
//! script     := statement*
//! statement  := "rule" NAME modifier* "{" (action | setting)* "}"
//!             | setting
//!             | action
//! setting    := "set" KEY VALUE
//! modifier   := ("maxdepth" | "md") COUNT [">" NAME]
//!             | ("weight" | "w") NUMBER
//! action     := COUNT "*" "{" transform* "}" NAME
//!             | "{" transform* "}" NAME
//!             | NAME
//! transform  := "color" WORD | "blend" WORD WORD | OP NUMBER*
//! ```
//!
//! A COUNT is an unsigned decimal that fits in a `u32`; a NUMBER is a word
//! that starts with a digit, a sign or a point. Parsing stops at the first
//! syntax error, which is reported as the one diagnostic; the statements read
//! before it are kept.

use vstd::prelude::*;

use crate::ast::{
    strings_of, Action, ActionV, Invocation, RuleDef, RuleDefV, Script, SetCmd, SetCmdV,
    Statement, StatementV, Transform, TransformV,
};
use crate::diagnostics::{error_view, Diagnostic, DiagnosticV, Severity};
use crate::lexer::{is_symbol, is_symbol_char, tokenize, tokens, tokens_valid, Token};
use crate::resolution::diagnostics_view;
use crate::text::{chars_of, is_digit, parse_unsigned, unsigned_value};

verus! {

/// The outcome of parsing one construct: its value and the index of the
/// first token after it, or the diagnostic of a syntax error.
pub enum Parsed<T> {
    Done(T, int),
    Fail(DiagnosticV),
}

/// The characters of token `k`.
pub open spec fn text(s: Seq<char>, toks: Seq<Token>, k: int) -> Seq<char> {
    s.subrange(toks[k].start as int, toks[k].end as int)
}

/// Token `k` exists and is the symbol `c`.
pub open spec fn sym_at(s: Seq<char>, toks: Seq<Token>, k: int, c: char) -> bool {
    0 <= k < toks.len() && s[toks[k].start as int] == c
}

/// Token `k` exists and is a word.
pub open spec fn word_at(s: Seq<char>, toks: Seq<Token>, k: int) -> bool {
    0 <= k < toks.len() && !is_symbol(s[toks[k].start as int])
}

/// Token `k` exists and is the word `w`.
pub open spec fn keyword_at(s: Seq<char>, toks: Seq<Token>, k: int, w: Seq<char>) -> bool {
    word_at(s, toks, k) && text(s, toks, k) == w
}

/// The line of token `k`; past the end, the line of the last token.
pub open spec fn line_of(toks: Seq<Token>, k: int) -> u32 {
    if 0 <= k < toks.len() {
        toks[k].line
    } else if toks.len() > 0 {
        toks.last().line
    } else {
        1
    }
}

/// A word that reads as a number: it starts with a digit, a sign or a point.
pub open spec fn is_number_text(t: Seq<char>) -> bool {
    t.len() > 0 && (is_digit(t[0]) || t[0] == '-' || t[0] == '+' || t[0] == '.')
}

/// The count written by token `k`, where it is a COUNT.
pub open spec fn count_at(s: Seq<char>, toks: Seq<Token>, k: int) -> Option<int> {
    if word_at(s, toks, k) {
        unsigned_value(text(s, toks, k), u32::MAX as int)
    } else {
        None
    }
}

/// The NUMBER words from token `i` on, after those in `acc`.
pub open spec fn numbers_from(s: Seq<char>, toks: Seq<Token>, i: int, acc: Seq<Seq<char>>) -> (
    Seq<Seq<char>>,
    int,
)
    decreases toks.len() - i,
{
    if word_at(s, toks, i) && is_number_text(text(s, toks, i)) {
        numbers_from(s, toks, i + 1, acc.push(text(s, toks, i)))
    } else {
        (acc, i)
    }
}

/// The arguments of the transformation `op`, from token `i` on.
pub open spec fn op_args(s: Seq<char>, toks: Seq<Token>, op: Seq<char>, i: int) -> Parsed<
    Seq<Seq<char>>,
> {
    if op == "color"@ {
        if word_at(s, toks, i) {
            Parsed::Done(seq![text(s, toks, i)], i + 1)
        } else {
            Parsed::Fail(error_view(line_of(toks, i), "Expected a colour after 'color'"@))
        }
    } else if op == "blend"@ {
        if word_at(s, toks, i) && word_at(s, toks, i + 1) {
            Parsed::Done(seq![text(s, toks, i), text(s, toks, i + 1)], i + 2)
        } else {
            Parsed::Fail(
                error_view(line_of(toks, i), "Expected a colour and a strength after 'blend'"@),
            )
        }
    } else {
        let (args, j) = numbers_from(s, toks, i, seq![]);
        Parsed::Done(args, j)
    }
}

/// The transformations from token `i` on up to the `}` that closes the block
/// opened on line `open_line`, after those in `acc`.
pub open spec fn transforms_from(
    s: Seq<char>,
    toks: Seq<Token>,
    i: int,
    open_line: u32,
    acc: Seq<TransformV>,
) -> Parsed<Seq<TransformV>>
    decreases toks.len() - i,
{
    if i < 0 || i >= toks.len() {
        Parsed::Fail(error_view(open_line, "Unclosed '{'"@))
    } else if sym_at(s, toks, i, '}') {
        Parsed::Done(acc, i + 1)
    } else if !word_at(s, toks, i) {
        Parsed::Fail(error_view(toks[i].line, "Expected a transformation"@))
    } else {
        let op = text(s, toks, i);
        match op_args(s, toks, op, i + 1) {
            Parsed::Fail(d) => Parsed::Fail(d),
            Parsed::Done(args, j) => if i < j <= toks.len() {
                transforms_from(s, toks, j, open_line, acc.push(TransformV { op, args }))
            } else {
                Parsed::Fail(error_view(toks[i].line, "Expected a transformation"@))
            },
        }
    }
}

/// The rule name that ends an action with the given transformations and
/// count, at token `j`.
pub open spec fn action_target(
    s: Seq<char>,
    toks: Seq<Token>,
    j: int,
    transforms: Seq<TransformV>,
    count: Option<u32>,
) -> Parsed<ActionV> {
    if word_at(s, toks, j) {
        Parsed::Done(ActionV { transforms, count, target: text(s, toks, j) }, j + 1)
    } else {
        Parsed::Fail(error_view(line_of(toks, j), "Expected a rule name"@))
    }
}

/// The action that starts at token `i`.
pub open spec fn action_at(s: Seq<char>, toks: Seq<Token>, i: int) -> Parsed<ActionV> {
    if word_at(s, toks, i) && sym_at(s, toks, i + 1, '*') {
        match count_at(s, toks, i) {
            None => Parsed::Fail(error_view(toks[i].line, "Expected a loop count before '*'"@)),
            Some(n) => if sym_at(s, toks, i + 2, '{') {
                match transforms_from(s, toks, i + 3, toks[i + 2].line, seq![]) {
                    Parsed::Fail(d) => Parsed::Fail(d),
                    Parsed::Done(ts, j) => action_target(s, toks, j, ts, Some(n as u32)),
                }
            } else {
                Parsed::Fail(error_view(line_of(toks, i + 2), "Expected '{' after a loop count"@))
            },
        }
    } else if sym_at(s, toks, i, '{') {
        match transforms_from(s, toks, i + 1, toks[i].line, seq![]) {
            Parsed::Fail(d) => Parsed::Fail(d),
            Parsed::Done(ts, j) => action_target(s, toks, j, ts, None),
        }
    } else {
        action_target(s, toks, i, seq![], None)
    }
}

/// The actions of a rule body from token `i` on, up to the `}` that closes
/// the body opened on line `open_line`, added to the rule `d`. A `set`
/// command in a body is read and has no effect on the rule.
pub open spec fn body_from(s: Seq<char>, toks: Seq<Token>, i: int, open_line: u32, d: RuleDefV) -> Parsed<
    RuleDefV,
>
    decreases toks.len() - i,
{
    if i < 0 || i >= toks.len() {
        Parsed::Fail(error_view(open_line, "Unclosed '{'"@))
    } else if sym_at(s, toks, i, '}') {
        Parsed::Done(d, i + 1)
    } else if keyword_at(s, toks, i, "set"@) {
        if word_at(s, toks, i + 1) && word_at(s, toks, i + 2) {
            body_from(s, toks, i + 3, open_line, d)
        } else {
            Parsed::Fail(error_view(toks[i].line, "Expected a key and a value after 'set'"@))
        }
    } else {
        match action_at(s, toks, i) {
            Parsed::Fail(e) => Parsed::Fail(e),
            Parsed::Done(a, j) => if i < j <= toks.len() {
                body_from(s, toks, j, open_line, RuleDefV { body: d.body.push(a), ..d })
            } else {
                Parsed::Fail(error_view(toks[i].line, "Expected a rule name"@))
            },
        }
    }
}

/// The modifiers of the rule `d` from token `i` on, then its body.
pub open spec fn modifiers_from(s: Seq<char>, toks: Seq<Token>, i: int, d: RuleDefV) -> Parsed<
    RuleDefV,
>
    decreases toks.len() - i,
{
    if i < 0 || i >= toks.len() {
        Parsed::Fail(error_view(line_of(toks, i), "Expected '{' to open the rule body"@))
    } else if sym_at(s, toks, i, '{') {
        body_from(s, toks, i + 1, toks[i].line, d)
    } else if keyword_at(s, toks, i, "maxdepth"@) || keyword_at(s, toks, i, "md"@) {
        match count_at(s, toks, i + 1) {
            None => Parsed::Fail(
                error_view(line_of(toks, i + 1), "Expected a number after 'maxdepth'"@),
            ),
            Some(n) => if sym_at(s, toks, i + 2, '>') {
                if word_at(s, toks, i + 3) {
                    modifiers_from(
                        s,
                        toks,
                        i + 4,
                        RuleDefV {
                            max_depth: Some(n as u32),
                            retirement: Some(text(s, toks, i + 3)),
                            ..d
                        },
                    )
                } else {
                    Parsed::Fail(error_view(line_of(toks, i + 3), "Expected a rule name after '>'"@))
                }
            } else {
                modifiers_from(s, toks, i + 2, RuleDefV { max_depth: Some(n as u32), ..d })
            },
        }
    } else if keyword_at(s, toks, i, "weight"@) || keyword_at(s, toks, i, "w"@) {
        if word_at(s, toks, i + 1) && is_number_text(text(s, toks, i + 1)) {
            modifiers_from(s, toks, i + 2, RuleDefV { weight: Some(text(s, toks, i + 1)), ..d })
        } else {
            Parsed::Fail(error_view(line_of(toks, i + 1), "Expected a number after 'weight'"@))
        }
    } else {
        Parsed::Fail(error_view(toks[i].line, "Unexpected token in rule definition"@))
    }
}

/// The rule definition whose name is token `i` (just after `rule`).
pub open spec fn rule_at(s: Seq<char>, toks: Seq<Token>, i: int) -> Parsed<RuleDefV> {
    if word_at(s, toks, i) {
        modifiers_from(
            s,
            toks,
            i + 1,
            RuleDefV {
                name: text(s, toks, i),
                weight: None,
                max_depth: None,
                retirement: None,
                body: seq![],
            },
        )
    } else {
        Parsed::Fail(error_view(line_of(toks, i), "Expected a rule name after 'rule'"@))
    }
}

/// The statements from token `i` on, after those in `acc`, and the
/// diagnostic of the first syntax error, if there is one.
pub open spec fn statements_from(s: Seq<char>, toks: Seq<Token>, i: int, acc: Seq<StatementV>) -> (
    Seq<StatementV>,
    Seq<DiagnosticV>,
)
    decreases toks.len() - i,
{
    if i < 0 || i >= toks.len() {
        (acc, seq![])
    } else if keyword_at(s, toks, i, "rule"@) {
        match rule_at(s, toks, i + 1) {
            Parsed::Fail(e) => (acc, seq![e]),
            Parsed::Done(r, j) => if i < j <= toks.len() {
                statements_from(s, toks, j, acc.push(StatementV::RuleDef(r)))
            } else {
                (acc, seq![])
            },
        }
    } else if keyword_at(s, toks, i, "set"@) {
        if word_at(s, toks, i + 1) && word_at(s, toks, i + 2) {
            statements_from(
                s,
                toks,
                i + 3,
                acc.push(
                    StatementV::SetCmd(
                        SetCmdV { key: text(s, toks, i + 1), value: text(s, toks, i + 2) },
                    ),
                ),
            )
        } else {
            (acc, seq![error_view(toks[i].line, "Expected a key and a value after 'set'"@)])
        }
    } else {
        match action_at(s, toks, i) {
            Parsed::Fail(e) => (acc, seq![e]),
            Parsed::Done(a, j) => if i < j <= toks.len() {
                statements_from(s, toks, j, acc.push(StatementV::Invocation(a)))
            } else {
                (acc, seq![])
            },
        }
    }
}

/// The statements of an EisenScript source text and the diagnostic of its
/// first syntax error, if it has one.
pub open spec fn parse_source(s: Seq<char>) -> (Seq<StatementV>, Seq<DiagnosticV>) {
    statements_from(s, tokens(s), 0, seq![])
}

// ── What a parse reports ───────────────────────────────────────────────────

/// A failed parse carries an error.
pub open spec fn error_if_failed<T>(p: Parsed<T>) -> bool {
    match p {
        Parsed::Fail(d) => d.severity == Severity::Error,
        Parsed::Done(_, _) => true,
    }
}

proof fn lemma_transforms_error(s: Seq<char>, toks: Seq<Token>, i: int, l: u32, acc: Seq<TransformV>)
    ensures
        error_if_failed(transforms_from(s, toks, i, l, acc)),
    decreases toks.len() - i,
{
    if 0 <= i < toks.len() && !sym_at(s, toks, i, '}') && word_at(s, toks, i) {
        let op = text(s, toks, i);
        if let Parsed::Done(args, j) = op_args(s, toks, op, i + 1) {
            if i < j <= toks.len() {
                lemma_transforms_error(s, toks, j, l, acc.push(TransformV { op, args }));
            }
        }
    }
}

proof fn lemma_action_error(s: Seq<char>, toks: Seq<Token>, i: int)
    ensures
        error_if_failed(action_at(s, toks, i)),
{
    if word_at(s, toks, i) && sym_at(s, toks, i + 1, '*') {
        lemma_transforms_error(s, toks, i + 3, toks[i + 2].line, seq![]);
    } else if sym_at(s, toks, i, '{') {
        lemma_transforms_error(s, toks, i + 1, toks[i].line, seq![]);
    }
}

proof fn lemma_body_error(s: Seq<char>, toks: Seq<Token>, i: int, l: u32, d: RuleDefV)
    ensures
        error_if_failed(body_from(s, toks, i, l, d)),
    decreases toks.len() - i,
{
    if 0 <= i < toks.len() && !sym_at(s, toks, i, '}') && keyword_at(s, toks, i, "set"@) {
        if word_at(s, toks, i + 1) && word_at(s, toks, i + 2) {
            lemma_body_error(s, toks, i + 3, l, d);
        }
    } else if 0 <= i < toks.len() && !sym_at(s, toks, i, '}') {
        lemma_action_error(s, toks, i);
        if let Parsed::Done(a, j) = action_at(s, toks, i) {
            if i < j <= toks.len() {
                lemma_body_error(s, toks, j, l, RuleDefV { body: d.body.push(a), ..d });
            }
        }
    }
}

proof fn lemma_modifiers_error(s: Seq<char>, toks: Seq<Token>, i: int, d: RuleDefV)
    ensures
        error_if_failed(modifiers_from(s, toks, i, d)),
    decreases toks.len() - i,
{
    if 0 <= i < toks.len() {
        if sym_at(s, toks, i, '{') {
            lemma_body_error(s, toks, i + 1, toks[i].line, d);
        } else if keyword_at(s, toks, i, "maxdepth"@) || keyword_at(s, toks, i, "md"@) {
            if let Some(n) = count_at(s, toks, i + 1) {
                if sym_at(s, toks, i + 2, '>') {
                    if word_at(s, toks, i + 3) {
                        lemma_modifiers_error(
                            s,
                            toks,
                            i + 4,
                            RuleDefV {
                                max_depth: Some(n as u32),
                                retirement: Some(text(s, toks, i + 3)),
                                ..d
                            },
                        );
                    }
                } else {
                    lemma_modifiers_error(s, toks, i + 2, RuleDefV { max_depth: Some(n as u32), ..d });
                }
            }
        } else if keyword_at(s, toks, i, "weight"@) || keyword_at(s, toks, i, "w"@) {
            if word_at(s, toks, i + 1) && is_number_text(text(s, toks, i + 1)) {
                lemma_modifiers_error(
                    s,
                    toks,
                    i + 2,
                    RuleDefV { weight: Some(text(s, toks, i + 1)), ..d },
                );
            }
        }
    }
}

proof fn lemma_statements_report(s: Seq<char>, toks: Seq<Token>, i: int, acc: Seq<StatementV>)
    ensures
        statements_from(s, toks, i, acc).1.len() <= 1,
        forall|k: int|
            0 <= k < statements_from(s, toks, i, acc).1.len() ==> (#[trigger] statements_from(
                s,
                toks,
                i,
                acc,
            ).1[k]).severity == Severity::Error,
    decreases toks.len() - i,
{
    if 0 <= i < toks.len() {
        if keyword_at(s, toks, i, "rule"@) {
            if word_at(s, toks, i + 1) {
                lemma_modifiers_error(
                    s,
                    toks,
                    i + 2,
                    RuleDefV {
                        name: text(s, toks, i + 1),
                        weight: None,
                        max_depth: None,
                        retirement: None,
                        body: seq![],
                    },
                );
            }
            if let Parsed::Done(r, j) = rule_at(s, toks, i + 1) {
                if i < j <= toks.len() {
                    lemma_statements_report(s, toks, j, acc.push(StatementV::RuleDef(r)));
                }
            }
        } else if keyword_at(s, toks, i, "set"@) {
            if word_at(s, toks, i + 1) && word_at(s, toks, i + 2) {
                lemma_statements_report(
                    s,
                    toks,
                    i + 3,
                    acc.push(
                        StatementV::SetCmd(
                            SetCmdV { key: text(s, toks, i + 1), value: text(s, toks, i + 2) },
                        ),
                    ),
                );
            }
        } else {
            lemma_action_error(s, toks, i);
            if let Parsed::Done(a, j) = action_at(s, toks, i) {
                if i < j <= toks.len() {
                    lemma_statements_report(s, toks, j, acc.push(StatementV::Invocation(a)));
                }
            }
        }
    }
}

/// A parse reports at most one diagnostic, and it is an error: parsing stops
/// at the first syntax error.
pub proof fn lemma_parse_reports_one_error_at_most(s: Seq<char>)
    ensures
        parse_source(s).1.len() <= 1,
        forall|k: int|
            0 <= k < parse_source(s).1.len() ==> (#[trigger] parse_source(s).1[k]).severity
                == Severity::Error,
{
    lemma_statements_report(s, tokens(s), 0, seq![]);
}

// ── What the rule modifiers do ─────────────────────────────────────────────

proof fn lemma_modifier_words()
    ensures
        "w"@.len() == 1,
        "weight"@.len() == 6,
        "md"@.len() == 2,
        "maxdepth"@.len() == 8,
{
    reveal_strlit("w");
    reveal_strlit("weight");
    reveal_strlit("md");
    reveal_strlit("maxdepth");
}

/// `w N` and `weight N` do the same: the rule's weight becomes the text of
/// the number `N`, and the modifiers go on after it.
pub proof fn lemma_weight_modifier(s: Seq<char>, toks: Seq<Token>, i: int, d: RuleDefV)
    requires
        keyword_at(s, toks, i, "w"@) || keyword_at(s, toks, i, "weight"@),
        word_at(s, toks, i + 1),
        is_number_text(text(s, toks, i + 1)),
    ensures
        modifiers_from(s, toks, i, d) == modifiers_from(
            s,
            toks,
            i + 2,
            RuleDefV { weight: Some(text(s, toks, i + 1)), ..d },
        ),
{
    lemma_modifier_words();
}

/// `md N` and `maxdepth N` do the same: the rule's depth limit becomes `N`;
/// followed by `> R`, its retirement rule becomes `R`.
pub proof fn lemma_maxdepth_modifier(s: Seq<char>, toks: Seq<Token>, i: int, d: RuleDefV, n: u32)
    requires
        keyword_at(s, toks, i, "md"@) || keyword_at(s, toks, i, "maxdepth"@),
        count_at(s, toks, i + 1) == Some(n as int),
    ensures
        !sym_at(s, toks, i + 2, '>') ==> modifiers_from(s, toks, i, d) == modifiers_from(
            s,
            toks,
            i + 2,
            RuleDefV { max_depth: Some(n), ..d },
        ),
        sym_at(s, toks, i + 2, '>') && word_at(s, toks, i + 3) ==> modifiers_from(s, toks, i, d)
            == modifiers_from(
            s,
            toks,
            i + 4,
            RuleDefV { max_depth: Some(n), retirement: Some(text(s, toks, i + 3)), ..d },
        ),
{
    lemma_modifier_words();
}

/// Reading a rule's body leaves its name and modifiers as they were.
pub proof fn lemma_body_keeps_header(s: Seq<char>, toks: Seq<Token>, i: int, l: u32, d: RuleDefV)
    ensures
        match body_from(s, toks, i, l, d) {
            Parsed::Done(r, _) => r.name == d.name && r.weight == d.weight && r.max_depth
                == d.max_depth && r.retirement == d.retirement,
            Parsed::Fail(_) => true,
        },
    decreases toks.len() - i,
{
    if 0 <= i < toks.len() && !sym_at(s, toks, i, '}') {
        if keyword_at(s, toks, i, "set"@) {
            if word_at(s, toks, i + 1) && word_at(s, toks, i + 2) {
                lemma_body_keeps_header(s, toks, i + 3, l, d);
            }
        } else if let Parsed::Done(a, j) = action_at(s, toks, i) {
            if i < j <= toks.len() {
                lemma_body_keeps_header(s, toks, j, l, RuleDefV { body: d.body.push(a), ..d });
            }
        }
    }
}

/// A rule written `rule NAME w N { … }` (or with `weight`) is read with that
/// name, the text of `N` as its weight, and no depth limit or retirement rule.
pub proof fn lemma_weighted_rule(s: Seq<char>, toks: Seq<Token>, i: int)
    requires
        word_at(s, toks, i),
        keyword_at(s, toks, i + 1, "w"@) || keyword_at(s, toks, i + 1, "weight"@),
        word_at(s, toks, i + 2),
        is_number_text(text(s, toks, i + 2)),
        sym_at(s, toks, i + 3, '{'),
    ensures
        match rule_at(s, toks, i) {
            Parsed::Done(r, _) => r.name == text(s, toks, i) && r.weight == Some(text(s, toks, i + 2))
                && r.max_depth is None && r.retirement is None,
            Parsed::Fail(_) => true,
        },
{
    let d0 = RuleDefV {
        name: text(s, toks, i),
        weight: None,
        max_depth: None,
        retirement: None,
        body: seq![],
    };
    let d1 = RuleDefV { weight: Some(text(s, toks, i + 2)), ..d0 };
    lemma_weight_modifier(s, toks, i + 1, d0);
    assert(modifiers_from(s, toks, i + 3, d1) == body_from(s, toks, i + 4, toks[i + 3].line, d1));
    lemma_body_keeps_header(s, toks, i + 4, toks[i + 3].line, d1);
}

// ── What the statements and actions are ───────────────────────────────────

/// `set K V` at the top level is the setting of key `K` to value `V`, and
/// reading goes on after it.
pub proof fn lemma_set_statement(s: Seq<char>, toks: Seq<Token>, i: int, acc: Seq<StatementV>)
    requires
        keyword_at(s, toks, i, "set"@),
        word_at(s, toks, i + 1),
        word_at(s, toks, i + 2),
    ensures
        statements_from(s, toks, i, acc) == statements_from(
            s,
            toks,
            i + 3,
            acc.push(
                StatementV::SetCmd(SetCmdV { key: text(s, toks, i + 1), value: text(s, toks, i + 2) }),
            ),
        ),
{
    reveal_strlit("set");
    reveal_strlit("rule");
    assert("set"@.len() == 3);
    assert("rule"@.len() == 4);
}

/// `N * { T… } R` is an action that repeats the transformations `T…` `N`
/// times into rule `R`; `{ T… } R` applies them once, with no count; a bare
/// `R` has neither.
pub proof fn lemma_action_forms(s: Seq<char>, toks: Seq<Token>, i: int)
    ensures
        word_at(s, toks, i) && !sym_at(s, toks, i + 1, '*') ==> action_at(s, toks, i)
            == Parsed::Done(ActionV { transforms: seq![], count: None, target: text(s, toks, i) }, i + 1),
        forall|n: u32, ts: Seq<TransformV>, j: int|
            word_at(s, toks, i) && sym_at(s, toks, i + 1, '*') && count_at(s, toks, i) == Some(
                n as int,
            ) && sym_at(s, toks, i + 2, '{') && transforms_from(
                s,
                toks,
                i + 3,
                toks[i + 2].line,
                seq![],
            ) == Parsed::Done(ts, j) && word_at(s, toks, j) ==> action_at(s, toks, i)
                == Parsed::Done(ActionV { transforms: ts, count: Some(n), target: text(s, toks, j) }, j + 1),
        forall|ts: Seq<TransformV>, j: int|
            sym_at(s, toks, i, '{') && transforms_from(s, toks, i + 1, toks[i].line, seq![])
                == Parsed::Done(ts, j) && word_at(s, toks, j) ==> action_at(s, toks, i)
                == Parsed::Done(ActionV { transforms: ts, count: None, target: text(s, toks, j) }, j + 1),
{
}

/// A transformation is its operator followed by its arguments: the one word
/// after `color`, the two after `blend`, and otherwise every number after it.
pub proof fn lemma_transform_step(s: Seq<char>, toks: Seq<Token>, i: int, l: u32, acc: Seq<TransformV>)
    requires
        word_at(s, toks, i),
    ensures
        forall|args: Seq<Seq<char>>, j: int|
            op_args(s, toks, text(s, toks, i), i + 1) == Parsed::Done(args, j) && i < j <= toks.len()
                ==> transforms_from(s, toks, i, l, acc) == transforms_from(
                s,
                toks,
                j,
                l,
                acc.push(TransformV { op: text(s, toks, i), args }),
            ),
        text(s, toks, i) == "color"@ && word_at(s, toks, i + 1) ==> op_args(
            s,
            toks,
            text(s, toks, i),
            i + 1,
        ) == Parsed::Done(seq![text(s, toks, i + 1)], i + 2),
        text(s, toks, i) == "blend"@ && word_at(s, toks, i + 1) && word_at(s, toks, i + 2)
            ==> op_args(s, toks, text(s, toks, i), i + 1) == Parsed::Done(
            seq![text(s, toks, i + 1), text(s, toks, i + 2)],
            i + 3,
        ),
{
    reveal_strlit("color");
    reveal_strlit("blend");
    assert("color"@[0] != "blend"@[0]);
}

// ── A script that is one name ──────────────────────────────────────────────

/// A letter, a digit or an underscore.
pub open spec fn is_name_char(c: char) -> bool {
    ('a' <= c && c <= 'z') || ('A' <= c && c <= 'Z') || ('0' <= c && c <= '9') || c == '_'
}

proof fn lemma_name_word_end(s: Seq<char>, i: int)
    requires
        0 <= i <= s.len(),
        forall|k: int| 0 <= k < s.len() ==> is_name_char(#[trigger] s[k]),
    ensures
        crate::lexer::word_end(s, i, false) == s.len(),
    decreases s.len() - i,
{
    if i < s.len() {
        assert(is_name_char(s[i]));
        lemma_name_word_end(s, i + 1);
    }
}

/// A script that is a single name made of letters, digits and underscores,
/// other than the keywords `rule` and `set`, is one invocation of that rule,
/// with no transformations and no count, and parses without a diagnostic.
pub proof fn lemma_single_name_script(s: Seq<char>)
    requires
        0 < s.len() <= usize::MAX,
        forall|k: int| 0 <= k < s.len() ==> is_name_char(#[trigger] s[k]),
        s != "rule"@,
        s != "set"@,
    ensures
        parse_source(s) == (
            seq![StatementV::Invocation(ActionV { transforms: seq![], count: None, target: s })],
            Seq::<DiagnosticV>::empty(),
        ),
{
    assert(is_name_char(s[0]));
    lemma_name_word_end(s, 0);
    let t = Token { start: 0, end: s.len() as usize, line: 1 };
    assert(crate::lexer::scan(s, s.len() as int, false, 1, crate::lexer::ScanMode::Normal)
        == Seq::<Token>::empty());
    assert(tokens(s) =~= seq![t]);
    let toks = tokens(s);
    assert(text(s, toks, 0) =~= s);
    assert(word_at(s, toks, 0));
    assert(!keyword_at(s, toks, 0, "rule"@));
    assert(!keyword_at(s, toks, 0, "set"@));
    let a = ActionV { transforms: seq![], count: None, target: s };
    assert(action_at(s, toks, 0) == Parsed::Done(a, 1));
    assert(statements_from(s, toks, 1, seq![StatementV::Invocation(a)]) == (
        seq![StatementV::Invocation(a)],
        Seq::<DiagnosticV>::empty(),
    ));
}

// ── The parser ─────────────────────────────────────────────────────────────

/// The text, its characters and its tokens agree.
pub open spec fn ready(src: Seq<char>, cs: Seq<char>, toks: Seq<Token>) -> bool {
    &&& cs == src
    &&& toks == tokens(cs)
    &&& tokens_valid(cs, toks)
}

fn word_at_x(cs: &Vec<char>, toks: &Vec<Token>, k: usize) -> (b: bool)
    requires
        tokens_valid(cs@, toks@),
    ensures
        b == word_at(cs@, toks@, k as int),
{
    k < toks.len() && !is_symbol_char(cs[toks[k].start])
}

fn sym_at_x(cs: &Vec<char>, toks: &Vec<Token>, k: usize, c: char) -> (b: bool)
    requires
        tokens_valid(cs@, toks@),
    ensures
        b == sym_at(cs@, toks@, k as int, c),
{
    k < toks.len() && cs[toks[k].start] == c
}

fn line_of_x(toks: &Vec<Token>, k: usize) -> (l: u32)
    ensures
        l == line_of(toks@, k as int),
{
    if k < toks.len() {
        toks[k].line
    } else if toks.len() > 0 {
        toks[toks.len() - 1].line
    } else {
        1
    }
}

fn text_x(src: &str, toks: &Vec<Token>, k: usize) -> (t: String)
    requires
        k < toks@.len(),
        tokens_valid(src@, toks@),
    ensures
        t@ == text(src@, toks@, k as int),
{
    let tok = toks[k];
    String::from_str(src.substring_char(tok.start, tok.end))
}

fn keyword_at_x(src: &str, cs: &Vec<char>, toks: &Vec<Token>, k: usize, w: &str) -> (b: bool)
    requires
        ready(src@, cs@, toks@),
    ensures
        b == keyword_at(cs@, toks@, k as int, w@),
{
    if !word_at_x(cs, toks, k) {
        return false;
    }
    let tok = toks[k];
    crate::primitive::str_eq(src.substring_char(tok.start, tok.end), w)
}

fn number_at_x(src: &str, cs: &Vec<char>, toks: &Vec<Token>, k: usize) -> (b: bool)
    requires
        ready(src@, cs@, toks@),
    ensures
        b == (word_at(cs@, toks@, k as int) && is_number_text(text(cs@, toks@, k as int))),
{
    if !word_at_x(cs, toks, k) {
        return false;
    }
    let c = cs[toks[k].start];
    assert(text(cs@, toks@, k as int)[0] == c);
    ('0' <= c && c <= '9') || c == '-' || c == '+' || c == '.'
}

fn count_at_x(src: &str, cs: &Vec<char>, toks: &Vec<Token>, k: usize) -> (r: Option<u32>)
    requires
        ready(src@, cs@, toks@),
    ensures
        match r {
            Some(n) => count_at(cs@, toks@, k as int) == Some(n as int),
            None => count_at(cs@, toks@, k as int) is None,
        },
{
    if !word_at_x(cs, toks, k) {
        return None;
    }
    let tok = toks[k];
    match parse_unsigned(src.substring_char(tok.start, tok.end), 0xffff_ffffu64) {
        Some(v) => Some(v as u32),
        None => None,
    }
}

fn error_at(line: u32, message: &str) -> (d: Diagnostic)
    ensures
        d@ == error_view(line, message@),
{
    Diagnostic::error(line, String::from_str(message))
}

fn numbers_x(src: &str, cs: &Vec<char>, toks: &Vec<Token>, i0: usize) -> (r: (Vec<String>, usize))
    requires
        ready(src@, cs@, toks@),
        i0 <= toks@.len(),
    ensures
        (strings_of(r.0@), r.1 as int) == numbers_from(cs@, toks@, i0 as int, seq![]),
        r.1 <= toks@.len(),
{
    let n = toks.len();
    let mut acc: Vec<String> = Vec::new();
    let mut i = i0;
    assert(strings_of(acc@) =~= Seq::<Seq<char>>::empty());
    loop
        invariant
            n == toks@.len(),
            ready(src@, cs@, toks@),
            i0 <= i <= toks@.len(),
            numbers_from(cs@, toks@, i0 as int, seq![]) == numbers_from(
                cs@,
                toks@,
                i as int,
                strings_of(acc@),
            ),
        decreases toks@.len() - i,
    {
        if !number_at_x(src, cs, toks, i) {
            return (acc, i);
        }
        assert(i < toks@.len());
        let t = text_x(src, toks, i);
        let ghost before = acc@;
        acc.push(t);
        assert(strings_of(acc@) =~= strings_of(before).push(t@));
        i = i + 1;
    }
}

/// The view of a list of transformations.
pub open spec fn transforms_view(v: Seq<Transform>) -> Seq<TransformV> {
    v.map_values(|t: Transform| t@)
}

fn op_args_x(src: &str, cs: &Vec<char>, toks: &Vec<Token>, op: &String, i: usize) -> (r: Result<
    (Vec<String>, usize),
    Diagnostic,
>)
    requires
        ready(src@, cs@, toks@),
        i <= toks@.len(),
    ensures
        match r {
            Ok((args, j)) => op_args(cs@, toks@, op@, i as int) == Parsed::Done(
                strings_of(args@),
                j as int,
            ) && j <= toks@.len(),
            Err(d) => op_args(cs@, toks@, op@, i as int) == Parsed::<Seq<Seq<char>>>::Fail(d@),
        },
{
    let n = toks.len();
    if crate::primitive::str_eq(op.as_str(), "color") {
        if word_at_x(cs, toks, i) {
            let mut args: Vec<String> = Vec::new();
            args.push(text_x(src, toks, i));
            assert(strings_of(args@) =~= seq![text(cs@, toks@, i as int)]);
            Ok((args, i + 1))
        } else {
            Err(error_at(line_of_x(toks, i), "Expected a colour after 'color'"))
        }
    } else if crate::primitive::str_eq(op.as_str(), "blend") {
        if word_at_x(cs, toks, i) && word_at_x(cs, toks, i + 1) {
            let mut args: Vec<String> = Vec::new();
            args.push(text_x(src, toks, i));
            args.push(text_x(src, toks, i + 1));
            assert(strings_of(args@) =~= seq![
                text(cs@, toks@, i as int),
                text(cs@, toks@, i + 1),
            ]);
            Ok((args, i + 2))
        } else {
            Err(error_at(line_of_x(toks, i), "Expected a colour and a strength after 'blend'"))
        }
    } else {
        let (args, j) = numbers_x(src, cs, toks, i);
        Ok((args, j))
    }
}

fn transforms_x(src: &str, cs: &Vec<char>, toks: &Vec<Token>, i0: usize, open_line: u32) -> (r:
    Result<(Vec<Transform>, usize), Diagnostic>)
    requires
        ready(src@, cs@, toks@),
        i0 <= toks@.len(),
    ensures
        match r {
            Ok((ts, j)) => transforms_from(cs@, toks@, i0 as int, open_line, seq![])
                == Parsed::Done(transforms_view(ts@), j as int),
            Err(d) => transforms_from(cs@, toks@, i0 as int, open_line, seq![]) == Parsed::<
                Seq<TransformV>,
            >::Fail(d@),
        },
{
    let n = toks.len();
    let mut acc: Vec<Transform> = Vec::new();
    let mut i = i0;
    assert(transforms_view(acc@) =~= Seq::<TransformV>::empty());
    loop
        invariant
            n == toks@.len(),
            ready(src@, cs@, toks@),
            i0 <= i <= toks@.len(),
            transforms_from(cs@, toks@, i0 as int, open_line, seq![]) == transforms_from(
                cs@,
                toks@,
                i as int,
                open_line,
                transforms_view(acc@),
            ),
        decreases toks@.len() - i,
    {
        if i >= toks.len() {
            return Err(error_at(open_line, "Unclosed '{'"));
        }
        if sym_at_x(cs, toks, i, '}') {
            return Ok((acc, i + 1));
        }
        if !word_at_x(cs, toks, i) {
            return Err(error_at(toks[i].line, "Expected a transformation"));
        }
        let op = text_x(src, toks, i);
        match op_args_x(src, cs, toks, &op, i + 1) {
            Err(d) => {
                return Err(d);
            },
            Ok((args, j)) => {
                if j <= i || j > toks.len() {
                    return Err(error_at(toks[i].line, "Expected a transformation"));
                }
                let ghost before = acc@;
                let t = Transform { op, args };
                acc.push(t);
                assert(transforms_view(acc@) =~= transforms_view(before).push(t@));
                i = j;
            },
        }
    }
}

fn target_x(
    src: &str,
    cs: &Vec<char>,
    toks: &Vec<Token>,
    j: usize,
    transforms: Vec<Transform>,
    count: Option<u32>,
) -> (r: Result<(Action, usize), Diagnostic>)
    requires
        ready(src@, cs@, toks@),
    ensures
        match r {
            Ok((a, k)) => action_target(cs@, toks@, j as int, transforms_view(transforms@), count)
                == Parsed::Done(a@, k as int) && k <= toks@.len(),
            Err(d) => action_target(cs@, toks@, j as int, transforms_view(transforms@), count)
                == Parsed::<ActionV>::Fail(d@),
        },
{
    let n = toks.len();
    if word_at_x(cs, toks, j) {
        let a = Action { transforms, count, target: text_x(src, toks, j) };
        assert(a@.transforms =~= transforms_view(transforms@));
        Ok((a, j + 1))
    } else {
        Err(error_at(line_of_x(toks, j), "Expected a rule name"))
    }
}

fn action_x(src: &str, cs: &Vec<char>, toks: &Vec<Token>, i: usize) -> (r: Result<
    (Action, usize),
    Diagnostic,
>)
    requires
        ready(src@, cs@, toks@),
        i < toks@.len(),
    ensures
        match r {
            Ok((a, j)) => action_at(cs@, toks@, i as int) == Parsed::Done(a@, j as int) && j
                <= toks@.len(),
            Err(d) => action_at(cs@, toks@, i as int) == Parsed::<ActionV>::Fail(d@),
        },
{
    let n = toks.len();
    if word_at_x(cs, toks, i) && sym_at_x(cs, toks, i + 1, '*') {
        match count_at_x(src, cs, toks, i) {
            None => Err(error_at(toks[i].line, "Expected a loop count before '*'")),
            Some(c) => {
                if sym_at_x(cs, toks, i + 2, '{') {
                    match transforms_x(src, cs, toks, i + 3, toks[i + 2].line) {
                        Err(d) => Err(d),
                        Ok((ts, j)) => target_x(src, cs, toks, j, ts, Some(c)),
                    }
                } else {
                    Err(error_at(line_of_x(toks, i + 2), "Expected '{' after a loop count"))
                }
            },
        }
    } else if sym_at_x(cs, toks, i, '{') {
        match transforms_x(src, cs, toks, i + 1, toks[i].line) {
            Err(d) => Err(d),
            Ok((ts, j)) => target_x(src, cs, toks, j, ts, None),
        }
    } else {
        let ts: Vec<Transform> = Vec::new();
        assert(transforms_view(ts@) =~= Seq::<TransformV>::empty());
        target_x(src, cs, toks, i, ts, None)
    }
}

fn body_x(src: &str, cs: &Vec<char>, toks: &Vec<Token>, i0: usize, open_line: u32, d0: RuleDef) -> (r:
    Result<(RuleDef, usize), Diagnostic>)
    requires
        ready(src@, cs@, toks@),
        i0 <= toks@.len(),
    ensures
        match r {
            Ok((d, j)) => body_from(cs@, toks@, i0 as int, open_line, d0@) == Parsed::Done(
                d@,
                j as int,
            ) && j <= toks@.len(),
            Err(e) => body_from(cs@, toks@, i0 as int, open_line, d0@) == Parsed::<
                RuleDefV,
            >::Fail(e@),
        },
{
    let n = toks.len();
    let mut d = d0;
    let mut i = i0;
    loop
        invariant
            n == toks@.len(),
            ready(src@, cs@, toks@),
            i0 <= i <= n,
            body_from(cs@, toks@, i0 as int, open_line, d0@) == body_from(
                cs@,
                toks@,
                i as int,
                open_line,
                d@,
            ),
        decreases n - i,
    {
        if i >= n {
            return Err(error_at(open_line, "Unclosed '{'"));
        }
        if sym_at_x(cs, toks, i, '}') {
            return Ok((d, i + 1));
        }
        if keyword_at_x(src, cs, toks, i, "set") {
            if word_at_x(cs, toks, i + 1) && word_at_x(cs, toks, i + 2) {
                i = i + 3;
                continue;
            }
            return Err(error_at(toks[i].line, "Expected a key and a value after 'set'"));
        }
        match action_x(src, cs, toks, i) {
            Err(e) => {
                return Err(e);
            },
            Ok((a, j)) => {
                if j <= i || j > n {
                    return Err(error_at(toks[i].line, "Expected a rule name"));
                }
                let ghost before = d@;
                d.body.push(a);
                assert(d@ == RuleDefV { body: before.body.push(a@), ..before }) by {
                    assert(d@.body =~= before.body.push(a@));
                }
                i = j;
            },
        }
    }
}

fn rule_x(src: &str, cs: &Vec<char>, toks: &Vec<Token>, i: usize) -> (r: Result<
    (RuleDef, usize),
    Diagnostic,
>)
    requires
        ready(src@, cs@, toks@),
        i <= toks@.len(),
    ensures
        match r {
            Ok((d, j)) => rule_at(cs@, toks@, i as int) == Parsed::Done(d@, j as int) && j
                <= toks@.len(),
            Err(e) => rule_at(cs@, toks@, i as int) == Parsed::<RuleDefV>::Fail(e@),
        },
{
    let n = toks.len();
    if !word_at_x(cs, toks, i) {
        return Err(error_at(line_of_x(toks, i), "Expected a rule name after 'rule'"));
    }
    let mut d = RuleDef {
        name: text_x(src, toks, i),
        weight: None,
        max_depth: None,
        retirement: None,
        body: Vec::new(),
    };
    assert(d@.body =~= Seq::<ActionV>::empty());
    let mut k = i + 1;
    loop
        invariant
            n == toks@.len(),
            ready(src@, cs@, toks@),
            k <= n,
            rule_at(cs@, toks@, i as int) == modifiers_from(cs@, toks@, k as int, d@),
        decreases n - k,
    {
        if k >= n {
            return Err(error_at(line_of_x(toks, k), "Expected '{' to open the rule body"));
        }
        if sym_at_x(cs, toks, k, '{') {
            return body_x(src, cs, toks, k + 1, toks[k].line, d);
        }
        if keyword_at_x(src, cs, toks, k, "maxdepth") || keyword_at_x(src, cs, toks, k, "md") {
            match count_at_x(src, cs, toks, k + 1) {
                None => {
                    return Err(
                        error_at(line_of_x(toks, k + 1), "Expected a number after 'maxdepth'"),
                    );
                },
                Some(c) => {
                    if sym_at_x(cs, toks, k + 2, '>') {
                        if word_at_x(cs, toks, k + 3) {
                            d.max_depth = Some(c);
                            d.retirement = Some(text_x(src, toks, k + 3));
                            k = k + 4;
                        } else {
                            return Err(
                                error_at(line_of_x(toks, k + 3), "Expected a rule name after '>'"),
                            );
                        }
                    } else {
                        d.max_depth = Some(c);
                        k = k + 2;
                    }
                },
            }
        } else if keyword_at_x(src, cs, toks, k, "weight") || keyword_at_x(src, cs, toks, k, "w") {
            if number_at_x(src, cs, toks, k + 1) {
                d.weight = Some(text_x(src, toks, k + 1));
                k = k + 2;
            } else {
                return Err(error_at(line_of_x(toks, k + 1), "Expected a number after 'weight'"));
            }
        } else {
            return Err(error_at(toks[k].line, "Unexpected token in rule definition"));
        }
    }
}

/// A parse of the text: the statements read and the diagnostic of the first
/// syntax error, if there is one.
pub struct ParseResult {
    pub script: Script,
    pub diagnostics: Vec<Diagnostic>,
}

/// Parse EisenScript source text into an AST.
pub fn parse(source: &str) -> (r: ParseResult)
    ensures
        r.script@ == parse_source(source@).0,
        diagnostics_view(r.diagnostics@) == parse_source(source@).1,
{
    let cs = chars_of(source);
    let toks = tokenize(&cs);
    let n = toks.len();
    let mut statements: Vec<Statement> = Vec::new();
    let mut i: usize = 0;
    assert(statements@.map_values(|s: Statement| s@) =~= Seq::<StatementV>::empty());
    loop
        invariant
            n == toks@.len(),
            ready(source@, cs@, toks@),
            i <= n,
            parse_source(source@) == statements_from(
                cs@,
                toks@,
                i as int,
                statements@.map_values(|s: Statement| s@),
            ),
        decreases n - i,
    {
        let ghost before = statements@;
        if i >= n {
            return ParseResult {
                script: Script { statements },
                diagnostics: Vec::new(),
            };
        }
        if keyword_at_x(source, &cs, &toks, i, "rule") {
            match rule_x(source, &cs, &toks, i + 1) {
                Err(e) => {
                    let mut diagnostics = Vec::new();
                    diagnostics.push(e);
                    assert(diagnostics_view(diagnostics@) =~= seq![e@]);
                    return ParseResult { script: Script { statements }, diagnostics };
                },
                Ok((d, j)) => {
                    if j <= i || j > n {
                        return ParseResult {
                            script: Script { statements },
                            diagnostics: Vec::new(),
                        };
                    }
                    let st = Statement::RuleDef(d);
                    statements.push(st);
                    assert(statements@.map_values(|s: Statement| s@) =~= before.map_values(
                        |s: Statement| s@,
                    ).push(st@));
                    i = j;
                },
            }
        } else if keyword_at_x(source, &cs, &toks, i, "set") {
            if word_at_x(&cs, &toks, i + 1) && word_at_x(&cs, &toks, i + 2) {
                let st = Statement::SetCmd(
                    SetCmd { key: text_x(source, &toks, i + 1), value: text_x(source, &toks, i + 2) },
                );
                statements.push(st);
                assert(statements@.map_values(|s: Statement| s@) =~= before.map_values(
                    |s: Statement| s@,
                ).push(st@));
                i = i + 3;
            } else {
                let mut diagnostics = Vec::new();
                let e = error_at(toks[i].line, "Expected a key and a value after 'set'");
                diagnostics.push(e);
                assert(diagnostics_view(diagnostics@) =~= seq![e@]);
                return ParseResult { script: Script { statements }, diagnostics };
            }
        } else {
            match action_x(source, &cs, &toks, i) {
                Err(e) => {
                    let mut diagnostics = Vec::new();
                    diagnostics.push(e);
                    assert(diagnostics_view(diagnostics@) =~= seq![e@]);
                    return ParseResult { script: Script { statements }, diagnostics };
                },
                Ok((a, j)) => {
                    if j <= i || j > n {
                        return ParseResult {
                            script: Script { statements },
                            diagnostics: Vec::new(),
                        };
                    }
                    let st = Statement::Invocation(
                        Invocation { transforms: a.transforms, count: a.count, target: a.target },
                    );
                    statements.push(st);
                    assert(statements@.map_values(|s: Statement| s@) =~= before.map_values(
                        |s: Statement| s@,
                    ).push(st@));
                    i = j;
                },
            }
        }
    }
}

} // verus!
