//! Name resolution — builds a [`RuleGraph`] from a parsed [`Script`].
//!
//! Steps:
//! 1. Collect all `RuleDef`s and insert them into the rule map, merging same-name
//!    rules into [`AmbiguousRuleNode`]s.
//! 2. Insert built-in primitives for every name that appears as a rule target.
//! 3. Detect `set recursion depth` to set [`RuleGraph::recurse_depth`].
//! 4. Leave undefined rule references for validation to report.

use vstd::prelude::*;

use crate::ast::{ActionV, RuleDefV, Script, SetCmdV, Statement, StatementV};
use crate::diagnostics::{error_view, Diagnostic, DiagnosticV};
use crate::primitive::{
    class_sep, is_builtin, is_builtin_name, is_triangle_name, is_triangle_ref, split_class,
    split_once_class, str_eq, triangle_open,
};
use crate::rule_graph::{
    find_rule, has_name, lemma_lookup_absent, lemma_lookup_at, lemma_lookup_found, lookup,
    names_distinct, rules_view, AmbiguousRuleNode, AmbiguousRuleNodeV, CustomRuleNode, RuleGraph,
    RuleNode, RuleNodeV, StartItem, StartItemV,
};
use crate::text::{find_in, lemma_find_in_bounds, lemma_find_in_subrange, occurs_at};

verus! {

// ── Map view of the entry list ─────────────────────────────────────────────

/// Adding an entry with a new name adds one key to the map.
pub proof fn lemma_rules_push(e: Seq<(String, RuleNode)>, entry: (String, RuleNode))
    requires
        names_distinct(e),
        !has_name(e, entry.0@),
    ensures
        names_distinct(e.push(entry)),
        rules_view(e.push(entry)) == rules_view(e).insert(entry.0@, entry.1@),
{
    let e2 = e.push(entry);
    assert forall|i: int, j: int|
        0 <= i < e2.len() && 0 <= j < e2.len() && i != j implies (#[trigger] e2[i]).0@ != (
    #[trigger] e2[j]).0@ by {
        if i < e.len() && j < e.len() {
            assert(e2[i] == e[i] && e2[j] == e[j]);
        } else if i < e.len() {
            assert(e2[i] == e[i]);
        } else {
            assert(e2[j] == e[j]);
        }
    }
    assert forall|k: Seq<char>| #[trigger] lookup(e2, k) == rules_view(e).insert(entry.0@, entry.1@).get(k) by {
        if k == entry.0@ {
            lemma_lookup_at(e2, e.len() as int);
        } else if has_name(e, k) {
            let i = choose|i: int| 0 <= i < e.len() && (#[trigger] e[i]).0@ == k;
            lemma_lookup_at(e, i);
            assert(e2[i] == e[i]);
            lemma_lookup_at(e2, i);
        } else {
            lemma_lookup_absent(e, k);
            assert(!has_name(e2, k)) by {
                if has_name(e2, k) {
                    let i = choose|i: int| 0 <= i < e2.len() && (#[trigger] e2[i]).0@ == k;
                    if i < e.len() {
                        assert(e2[i] == e[i]);
                    }
                }
            }
            lemma_lookup_absent(e2, k);
        }
    }
    assert(rules_view(e2) =~= rules_view(e).insert(entry.0@, entry.1@));
}

/// Removing an entry removes its name from the map.
pub proof fn lemma_rules_remove(e: Seq<(String, RuleNode)>, i: int)
    requires
        names_distinct(e),
        0 <= i < e.len(),
    ensures
        names_distinct(e.remove(i)),
        !has_name(e.remove(i), e[i].0@),
        rules_view(e.remove(i)) == rules_view(e).remove(e[i].0@),
{
    let e2 = e.remove(i);
    assert forall|a: int| 0 <= a < e2.len() implies #[trigger] e2[a] == if a < i {
        e[a]
    } else {
        e[a + 1]
    } by {}
    assert forall|a: int, b: int|
        0 <= a < e2.len() && 0 <= b < e2.len() && a != b implies (#[trigger] e2[a]).0@ != (
    #[trigger] e2[b]).0@ by {
        let a2 = if a < i { a } else { a + 1 };
        let b2 = if b < i { b } else { b + 1 };
        assert(e2[a] == e[a2] && e2[b] == e[b2]);
    }
    assert(!has_name(e2, e[i].0@)) by {
        if has_name(e2, e[i].0@) {
            let a = choose|a: int| 0 <= a < e2.len() && (#[trigger] e2[a]).0@ == e[i].0@;
            let a2 = if a < i { a } else { a + 1 };
            assert(e2[a] == e[a2]);
        }
    }
    assert forall|k: Seq<char>| #[trigger] lookup(e2, k) == rules_view(e).remove(e[i].0@).get(k) by {
        if k == e[i].0@ {
            lemma_lookup_absent(e2, k);
        } else if has_name(e2, k) {
            let a = choose|a: int| 0 <= a < e2.len() && (#[trigger] e2[a]).0@ == k;
            let a2 = if a < i { a } else { a + 1 };
            assert(e2[a] == e[a2]);
            lemma_lookup_at(e2, a);
            lemma_lookup_at(e, a2);
        } else {
            lemma_lookup_absent(e2, k);
            assert(!has_name(e, k)) by {
                if has_name(e, k) {
                    let b = choose|b: int| 0 <= b < e.len() && (#[trigger] e[b]).0@ == k;
                    let b2 = if b < i { b } else { b - 1 };
                    assert(e2[b2] == e[b]);
                }
            }
            lemma_lookup_absent(e, k);
        }
    }
    assert(rules_view(e2) =~= rules_view(e).remove(e[i].0@));
}

/// With distinct names, the map has a key exactly when an entry has that name,
/// and the key maps to that entry's node.
pub proof fn lemma_rules_view_entry(e: Seq<(String, RuleNode)>, i: int)
    requires
        names_distinct(e),
        0 <= i < e.len(),
    ensures
        rules_view(e).contains_key(e[i].0@),
        rules_view(e)[e[i].0@] == e[i].1@,
{
    lemma_lookup_at(e, i);
}

pub proof fn lemma_rules_view_key(e: Seq<(String, RuleNode)>, k: Seq<char>)
    ensures
        rules_view(e).contains_key(k) == has_name(e, k),
{
    if rules_view(e).contains_key(k) {
        lemma_lookup_found(e, k);
    }
    if has_name(e, k) && !rules_view(e).contains_key(k) {
        let i = choose|i: int| 0 <= i < e.len() && (#[trigger] e[i]).0@ == k;
        lemma_lookup_found_any(e, i);
    }
}

/// Whenever some entry has a name, `lookup` finds one.
proof fn lemma_lookup_found_any(e: Seq<(String, RuleNode)>, i: int)
    requires
        0 <= i < e.len(),
    ensures
        lookup(e, e[i].0@) is Some,
    decreases i,
{
    if i > 0 && e[0].0@ != e[i].0@ {
        assert(e.drop_first()[i - 1] == e[i]);
        lemma_lookup_found_any(e.drop_first(), i - 1);
    }
}

// ── What resolution computes ───────────────────────────────────────────────

/// The state after the first pass over the statements: the user rules by name,
/// the top-level items, the recursion flag and the diagnostics so far.
pub struct ResolveState {
    pub rules: Map<Seq<char>, RuleNodeV>,
    pub start_items: Seq<StartItemV>,
    pub recurse_depth: bool,
    pub diagnostics: Seq<DiagnosticV>,
}

pub open spec fn redefine_message(name: Seq<char>) -> Seq<char> {
    "Cannot redefine built-in primitive '"@ + name + "'"@
}

pub open spec fn shadow_message(name: Seq<char>) -> Seq<char> {
    "Cannot shadow primitive rule '"@ + name + "'"@
}

pub open spec fn class_message(base: Seq<char>, class: Seq<char>) -> Seq<char> {
    "Class specifier '::"@ + class + "' is only valid on built-in primitives, not on user rule '"@
        + base + "'"@
}

/// `set recursion depth`.
pub open spec fn is_recursion_depth(c: SetCmdV) -> bool {
    c.key == "recursion"@ && c.value == "depth"@
}

/// The first pass on one rule definition: a built-in name is refused, a new
/// name becomes a custom rule, a second definition makes the rule ambiguous
/// and later ones are appended as further variants.
pub open spec fn define_step(st: ResolveState, def: RuleDefV) -> ResolveState {
    let name = def.name;
    if is_builtin_name(name) {
        ResolveState { diagnostics: st.diagnostics.push(error_view(0, redefine_message(name))), ..st }
    } else if !st.rules.contains_key(name) {
        ResolveState { rules: st.rules.insert(name, RuleNodeV::Custom(def)), ..st }
    } else {
        match st.rules[name] {
            RuleNodeV::Custom(e) => ResolveState {
                rules: st.rules.insert(
                    name,
                    RuleNodeV::Ambiguous(AmbiguousRuleNodeV { name, variants: seq![e, def] }),
                ),
                ..st
            },
            RuleNodeV::Ambiguous(a) => ResolveState {
                rules: st.rules.insert(
                    name,
                    RuleNodeV::Ambiguous(AmbiguousRuleNodeV { name: a.name, variants: a.variants.push(def) }),
                ),
                ..st
            },
            RuleNodeV::Primitive { .. } => ResolveState {
                rules: st.rules.remove(name),
                diagnostics: st.diagnostics.push(error_view(0, shadow_message(name))),
                ..st
            },
        }
    }
}

/// The first pass on one statement.
pub open spec fn resolve_step(st: ResolveState, stmt: StatementV) -> ResolveState {
    match stmt {
        StatementV::RuleDef(def) => define_step(st, def),
        StatementV::SetCmd(c) => ResolveState {
            recurse_depth: st.recurse_depth || is_recursion_depth(c),
            start_items: st.start_items.push(StartItemV::SetCmd(c)),
            ..st
        },
        StatementV::Invocation(a) => ResolveState {
            start_items: st.start_items.push(StartItemV::Action(a)),
            ..st
        },
    }
}

/// The first pass over a list of statements, in order.
pub open spec fn resolve_statements(stmts: Seq<StatementV>) -> ResolveState
    decreases stmts.len(),
{
    if stmts.len() == 0 {
        ResolveState {
            rules: Map::empty(),
            start_items: seq![],
            recurse_depth: false,
            diagnostics: seq![],
        }
    } else {
        resolve_step(resolve_statements(stmts.drop_last()), stmts.last())
    }
}

/// Some action of `body` targets `t`.
pub open spec fn body_targets(body: Seq<ActionV>, t: Seq<char>) -> bool {
    exists|i: int| 0 <= i < body.len() && (#[trigger] body[i]).target == t
}

/// A rule variant refers to `t` from its body or as its retirement rule.
pub open spec fn variant_refs(v: RuleDefV, t: Seq<char>) -> bool {
    body_targets(v.body, t) || v.retirement == Some(t)
}

/// Some variant refers to `t`.
pub open spec fn variants_refs(vs: Seq<RuleDefV>, t: Seq<char>) -> bool {
    exists|i: int| 0 <= i < vs.len() && variant_refs(#[trigger] vs[i], t)
}

/// The names a rule refers to: the body targets and the retirement rule of
/// a custom rule, and of every variant of an ambiguous rule.
pub open spec fn node_refs(n: RuleNodeV, t: Seq<char>) -> bool {
    match n {
        RuleNodeV::Custom(c) => variant_refs(c, t),
        RuleNodeV::Ambiguous(a) => variants_refs(a.variants, t),
        RuleNodeV::Primitive { .. } => false,
    }
}

/// Some top-level action targets `t`.
pub open spec fn start_refs(items: Seq<StartItemV>, t: Seq<char>) -> bool {
    exists|i: int|
        0 <= i < items.len() && (#[trigger] items[i] matches StartItemV::Action(a) && a.target == t)
}

/// `t` is a rule target of the program after the first pass.
pub open spec fn is_referenced(st: ResolveState, t: Seq<char>) -> bool {
    start_refs(st.start_items, t) || exists|k: Seq<char>|
        #[trigger] st.rules.contains_key(k) && node_refs(st.rules[k], t)
}

/// The primitive that an otherwise unknown target stands for: a built-in
/// name, an inline triangle, or `builtin::class`.
pub open spec fn classify(t: Seq<char>) -> Option<RuleNodeV> {
    if is_builtin_name(t) {
        Some(RuleNodeV::Primitive { kind_name: t, class_tag: None })
    } else if is_triangle_name(t) {
        Some(RuleNodeV::Primitive { kind_name: "triangle"@, class_tag: Some(t.skip(8)) })
    } else {
        match split_class(t) {
            Some((b, c)) => if is_builtin_name(b) {
                Some(RuleNodeV::Primitive { kind_name: b, class_tag: Some(c) })
            } else {
                None
            },
            None => None,
        }
    }
}

/// The error for a target `user::class` whose base is a user rule.
pub open spec fn class_problem(t: Seq<char>, rules: Map<Seq<char>, RuleNodeV>) -> Option<DiagnosticV> {
    if rules.contains_key(t) || is_builtin_name(t) || is_triangle_name(t) {
        None
    } else {
        match split_class(t) {
            Some((b, c)) => if !is_builtin_name(b) && rules.contains_key(b) {
                Some(error_view(0, class_message(b, c)))
            } else {
                None
            },
            None => None,
        }
    }
}

/// The class errors for the targets `refs`, in that order.
pub open spec fn class_diagnostics(refs: Seq<Seq<char>>, rules: Map<Seq<char>, RuleNodeV>) -> Seq<
    DiagnosticV,
>
    decreases refs.len(),
{
    if refs.len() == 0 {
        seq![]
    } else {
        let prev = class_diagnostics(refs.drop_last(), rules);
        match class_problem(refs.last(), rules) {
            Some(d) => prev.push(d),
            None => prev,
        }
    }
}

/// The rules after the second pass: the user rules, plus a primitive for each
/// referenced target that is not a user rule and names a primitive.
pub open spec fn resolved_rules(st: ResolveState) -> Map<Seq<char>, RuleNodeV> {
    Map::new(
        |k: Seq<char>| st.rules.contains_key(k) || (is_referenced(st, k) && classify(k) is Some),
        |k: Seq<char>| if st.rules.contains_key(k) { st.rules[k] } else { classify(k)->0 },
    )
}

/// The characters of each string.
pub open spec fn strings_view(v: Seq<String>) -> Seq<Seq<char>> {
    v.map_values(|s: String| s@)
}

// ── Target collection ──────────────────────────────────────────────────────

/// Pushing `x` adds exactly `x` to what the sequence contains.
proof fn lemma_push_contains(s: Seq<Seq<char>>, x: Seq<char>)
    ensures
        forall|t: Seq<char>| #[trigger] s.push(x).contains(t) <==> s.contains(t) || t == x,
{
    assert forall|t: Seq<char>| #[trigger] s.push(x).contains(t) <==> s.contains(t) || t == x by {
        if s.push(x).contains(t) {
            let j = choose|j: int| 0 <= j < s.push(x).len() && s.push(x)[j] == t;
            if j < s.len() {
                assert(s[j] == t);
            }
        }
        if s.contains(t) {
            let j = choose|j: int| 0 <= j < s.len() && s[j] == t;
            assert(s.push(x)[j] == t);
        }
        if t == x {
            assert(s.push(x)[s.len() as int] == t);
        }
    }
}

fn contains_string(v: &Vec<String>, s: &String) -> (r: bool)
    ensures
        r == strings_view(v@).contains(s@),
{
    for i in 0..v.len()
        invariant
            forall|j: int| 0 <= j < i ==> (#[trigger] v@[j])@ != s@,
    {
        if v[i] == *s {
            assert(strings_view(v@)[i as int] == s@);
            return true;
        }
    }
    assert(!strings_view(v@).contains(s@)) by {
        if strings_view(v@).contains(s@) {
            let j = choose|j: int| 0 <= j < v@.len() && strings_view(v@)[j] == s@;
            assert(v@[j]@ == s@);
        }
    }
    false
}

/// Add the action's target to the distinct targets collected so far.
pub fn collect_from_action(action: &crate::ast::Action, targets: &mut Vec<String>)
    requires
        strings_view(old(targets)@).no_duplicates(),
    ensures
        strings_view(final(targets)@).no_duplicates(),
        forall|t: Seq<char>|
            #![trigger strings_view(final(targets)@).contains(t)]
            strings_view(final(targets)@).contains(t) <==> strings_view(old(targets)@).contains(t)
                || t == action@.target,
{
    if !contains_string(targets, &action.target) {
        let ghost before = strings_view(targets@);
        targets.push(action.target.clone());
        assert(strings_view(targets@) =~= before.push(action@.target));
        proof {
            lemma_push_contains(before, action@.target);
        }
    }
}

/// Add the targets of a rule body to the distinct targets collected so far.
pub fn collect_from_body(body: &Vec<crate::ast::Action>, targets: &mut Vec<String>)
    requires
        strings_view(old(targets)@).no_duplicates(),
    ensures
        strings_view(final(targets)@).no_duplicates(),
        forall|t: Seq<char>|
            #![trigger strings_view(final(targets)@).contains(t)]
            strings_view(final(targets)@).contains(t) <==> strings_view(old(targets)@).contains(t)
                || body_targets(body@.map_values(|a: crate::ast::Action| a@), t),
{
    let ghost bv = body@.map_values(|a: crate::ast::Action| a@);
    for i in 0..body.len()
        invariant
            bv == body@.map_values(|a: crate::ast::Action| a@),
            strings_view(targets@).no_duplicates(),
            forall|t: Seq<char>|
                #![trigger strings_view(targets@).contains(t)]
                strings_view(targets@).contains(t) <==> strings_view(old(targets)@).contains(t)
                    || body_targets(bv.take(i as int), t),
    {
        collect_from_action(&body[i], targets);
        assert(bv[i as int] == body@[i as int]@);
        assert forall|t: Seq<char>|
            body_targets(bv.take(i + 1), t) <==> body_targets(bv.take(i as int), t) || t
                == bv[i as int].target by {
            if body_targets(bv.take(i + 1), t) {
                let j = choose|j: int| 0 <= j < i + 1 && (#[trigger] bv.take(i + 1)[j]).target == t;
                if j < i {
                    assert(bv.take(i as int)[j] == bv.take(i + 1)[j]);
                }
            }
            if body_targets(bv.take(i as int), t) {
                let j = choose|j: int| 0 <= j < i && (#[trigger] bv.take(i as int)[j]).target == t;
                assert(bv.take(i as int)[j] == bv.take(i + 1)[j]);
            }
            if t == bv[i as int].target {
                assert(bv.take(i + 1)[i as int] == bv[i as int]);
            }
        }
    }
    assert(bv.take(body@.len() as int) =~= bv);
}

/// Collect every distinct rule target name referenced by the graph.
pub fn collect_all_targets(rules: &Vec<(String, RuleNode)>, start_items: &Vec<StartItem>) -> (r: Vec<
    String,
>)
    ensures
        strings_view(r@).no_duplicates(),
        forall|t: Seq<char>|
            #![trigger strings_view(r@).contains(t)]
            strings_view(r@).contains(t) <==> start_refs(
                start_items@.map_values(|s: StartItem| s@),
                t,
            ) || exists|i: int| 0 <= i < rules@.len() && node_refs((#[trigger] rules@[i]).1@, t),
{
    let mut targets: Vec<String> = Vec::new();
    let ghost sv = start_items@.map_values(|s: StartItem| s@);
    for i in 0..start_items.len()
        invariant
            sv == start_items@.map_values(|s: StartItem| s@),
            strings_view(targets@).no_duplicates(),
            forall|t: Seq<char>|
                #![trigger strings_view(targets@).contains(t)]
                strings_view(targets@).contains(t) <==> start_refs(sv.take(i as int), t),
    {
        let ghost before = strings_view(targets@);
        if let StartItem::Action(a) = &start_items[i] {
            collect_from_action(a, &mut targets);
        }
        assert forall|t: Seq<char>|
            #[trigger] strings_view(targets@).contains(t) <==> start_refs(sv.take(i + 1), t) by {
            if start_refs(sv.take(i + 1), t) {
                let j = choose|j: int|
                    0 <= j < i + 1 && (#[trigger] sv.take(i + 1)[j] matches StartItemV::Action(a)
                        && a.target == t);
                if j < i {
                    assert(sv.take(i as int)[j] == sv.take(i + 1)[j]);
                    assert(start_refs(sv.take(i as int), t));
                }
            }
            if start_refs(sv.take(i as int), t) {
                let j = choose|j: int|
                    0 <= j < i && (#[trigger] sv.take(i as int)[j] matches StartItemV::Action(a)
                        && a.target == t);
                assert(sv.take(i as int)[j] == sv.take(i + 1)[j]);
            }
            if strings_view(targets@).contains(t) && !before.contains(t) {
                assert(sv.take(i + 1)[i as int] == sv[i as int]);
            }
        }
    }
    assert(sv.take(start_items@.len() as int) =~= sv);
    for i in 0..rules.len()
        invariant
            sv == start_items@.map_values(|s: StartItem| s@),
            strings_view(targets@).no_duplicates(),
            forall|t: Seq<char>|
                #![trigger strings_view(targets@).contains(t)]
                strings_view(targets@).contains(t) <==> start_refs(sv, t) || exists|j: int|
                    0 <= j < i && node_refs((#[trigger] rules@[j]).1@, t),
    {
        let ghost before = strings_view(targets@);
        match &rules[i].1 {
            RuleNode::Custom(c) => {
                collect_from_body(&c.body, &mut targets);
                let ghost mid = strings_view(targets@);
                if let Some(ret) = &c.retirement {
                    if !contains_string(&targets, ret) {
                        targets.push(ret.clone());
                        assert(strings_view(targets@) =~= mid.push(ret@));
                        proof {
                            lemma_push_contains(mid, ret@);
                        }
                    }
                }
                assert forall|t: Seq<char>|
                    #[trigger] strings_view(targets@).contains(t) <==> before.contains(t)
                        || node_refs(rules@[i as int].1@, t) by {}
            },
            RuleNode::Ambiguous(a) => {
                let ghost av = a@;
                let mut k: usize = 0;
                while k < a.variants.len()
                    invariant
                        0 <= k <= a.variants@.len(),
                        av == a@,
                        strings_view(targets@).no_duplicates(),
                        forall|t: Seq<char>|
                            #![trigger strings_view(targets@).contains(t)]
                            strings_view(targets@).contains(t) <==> before.contains(t) || exists|m: int|
                                0 <= m < k && variant_refs(#[trigger] av.variants[m], t),
                    decreases a.variants@.len() - k,
                {
                    let ghost mid = strings_view(targets@);
                    collect_from_body(&a.variants[k].body, &mut targets);
                    let ghost mid2 = strings_view(targets@);
                    if let Some(ret) = &a.variants[k].retirement {
                        if !contains_string(&targets, ret) {
                            targets.push(ret.clone());
                            assert(strings_view(targets@) =~= mid2.push(ret@));
                            proof {
                                lemma_push_contains(mid2, ret@);
                            }
                        }
                    }
                    assert(av.variants[k as int] == a.variants@[k as int]@);
                    assert forall|t: Seq<char>|
                        #[trigger] strings_view(targets@).contains(t) <==> mid.contains(t)
                            || variant_refs(av.variants[k as int], t) by {}
                    assert forall|t: Seq<char>|
                        #[trigger] strings_view(targets@).contains(t) <==> before.contains(t) || exists|m: int|
                            0 <= m < k + 1 && variant_refs(#[trigger] av.variants[m], t) by {
                        if exists|m: int| 0 <= m < k + 1 && variant_refs(#[trigger] av.variants[m], t) {
                            let m = choose|m: int| 0 <= m < k + 1 && variant_refs(#[trigger] av.variants[m], t);
                            if m < k {
                                assert(mid.contains(t));
                            }
                        }
                    }
                    k = k + 1;
                }
                assert(rules@[i as int].1@ == RuleNodeV::Ambiguous(av));
                assert(k == av.variants.len());
                assert forall|t: Seq<char>|
                    #[trigger] strings_view(targets@).contains(t) <==> before.contains(t)
                        || node_refs(rules@[i as int].1@, t) by {
                    if node_refs(rules@[i as int].1@, t) {
                        assert(variants_refs(av.variants, t));
                        let m = choose|m: int|
                            0 <= m < av.variants.len() && variant_refs(#[trigger] av.variants[m], t);
                        assert(0 <= m < k && variant_refs(av.variants[m], t));
                        assert(strings_view(targets@).contains(t));
                    }
                    if strings_view(targets@).contains(t) && !before.contains(t) {
                        let m = choose|m: int| 0 <= m < k && variant_refs(#[trigger] av.variants[m], t);
                        assert(0 <= m < av.variants.len());
                        assert(variant_refs(av.variants[m], t));
                        assert(exists|m: int|
                            0 <= m < av.variants.len() && variant_refs(#[trigger] av.variants[m], t));
                        assert(variants_refs(av.variants, t));
                    }
                }
            },
            RuleNode::Primitive { .. } => {
                assert forall|t: Seq<char>|
                    #[trigger] strings_view(targets@).contains(t) <==> before.contains(t)
                        || node_refs(rules@[i as int].1@, t) by {}
            },
        }
        assert forall|t: Seq<char>|
            #[trigger] strings_view(targets@).contains(t) <==> start_refs(sv, t) || exists|j: int|
                0 <= j < i + 1 && node_refs((#[trigger] rules@[j]).1@, t) by {
            if exists|j: int| 0 <= j < i + 1 && node_refs((#[trigger] rules@[j]).1@, t) {
                let j = choose|j: int| 0 <= j < i + 1 && node_refs((#[trigger] rules@[j]).1@, t);
                if j < i {
                    assert(before.contains(t));
                }
            }
        }
    }
    targets
}

// ── Resolution ─────────────────────────────────────────────────────────────

/// The characters of each diagnostic's parts.
pub open spec fn diagnostics_view(v: Seq<Diagnostic>) -> Seq<DiagnosticV> {
    v.map_values(|d: Diagnostic| d@)
}

/// A state holding only rules and diagnostics.
pub open spec fn rules_state(rules: Map<Seq<char>, RuleNodeV>, diagnostics: Seq<DiagnosticV>) -> ResolveState {
    ResolveState { rules, start_items: seq![], recurse_depth: false, diagnostics }
}

/// `a + b + c` as a new string.
fn concat3(a: &str, b: &str, c: &str) -> (r: String)
    ensures
        r@ == a@ + b@ + c@,
{
    let mut r = String::from_str(a);
    r.append(b);
    r.append(c);
    r
}

/// Add one rule definition to the rules, as the first pass does.
fn define_rule(def: &crate::ast::RuleDef, rules: &mut Vec<(String, RuleNode)>, diagnostics: &mut Vec<Diagnostic>)
    requires
        names_distinct(old(rules)@),
    ensures
        names_distinct(final(rules)@),
        rules_view(final(rules)@) == define_step(
            rules_state(rules_view(old(rules)@), diagnostics_view(old(diagnostics)@)),
            def@,
        ).rules,
        diagnostics_view(final(diagnostics)@) == define_step(
            rules_state(rules_view(old(rules)@), diagnostics_view(old(diagnostics)@)),
            def@,
        ).diagnostics,
{
    let ghost m = rules_view(rules@);
    let ghost dv = diagnostics_view(diagnostics@);
    let node = CustomRuleNode::from_rule_def(def.clone());
    let name = def.name.clone();
    if is_builtin(name.as_str()) {
        let msg = concat3("Cannot redefine built-in primitive '", name.as_str(), "'");
        diagnostics.push(Diagnostic::error(0, msg));
        assert(diagnostics_view(diagnostics@) =~= dv.push(error_view(0, redefine_message(def@.name))));
        return;
    }
    match find_rule(rules, name.as_str()) {
        None => {
            proof {
                lemma_rules_view_key(rules@, name@);
                lemma_rules_push(rules@, (name, RuleNode::Custom(node)));
            }
            rules.push((name, RuleNode::Custom(node)));
        },
        Some(idx) => {
            proof {
                lemma_rules_view_entry(rules@, idx as int);
                lemma_rules_remove(rules@, idx as int);
            }
            let (_, existing) = rules.remove(idx);
            match existing {
                RuleNode::Custom(e) => {
                    let mut variants: Vec<CustomRuleNode> = Vec::new();
                    variants.push(e);
                    variants.push(node);
                    let amb = AmbiguousRuleNode { name: name.clone(), variants };
                    assert(amb@.variants =~= seq![e@, def@]);
                    proof {
                        lemma_rules_push(rules@, (name, RuleNode::Ambiguous(amb)));
                    }
                    rules.push((name, RuleNode::Ambiguous(amb)));
                    assert(rules_view(rules@) =~= m.insert(
                        def@.name,
                        RuleNodeV::Ambiguous(AmbiguousRuleNodeV { name: def@.name, variants: seq![e@, def@] }),
                    ));
                },
                RuleNode::Ambiguous(a) => {
                    let mut a = a;
                    let ghost old_a = a@;
                    a.variants.push(node);
                    assert(a@.variants =~= old_a.variants.push(def@));
                    proof {
                        lemma_rules_push(rules@, (name, RuleNode::Ambiguous(a)));
                    }
                    rules.push((name, RuleNode::Ambiguous(a)));
                    assert(rules_view(rules@) =~= m.insert(
                        def@.name,
                        RuleNodeV::Ambiguous(
                            AmbiguousRuleNodeV { name: old_a.name, variants: old_a.variants.push(def@) },
                        ),
                    ));
                },
                RuleNode::Primitive { .. } => {
                    let msg = concat3("Cannot shadow primitive rule '", name.as_str(), "'");
                    diagnostics.push(Diagnostic::error(0, msg));
                    assert(diagnostics_view(diagnostics@) =~= dv.push(
                        error_view(0, shadow_message(def@.name)),
                    ));
                },
            }
        },
    }
}

/// The rules after the second pass has handled the targets `done`.
pub open spec fn rules_with_targets(r1: Map<Seq<char>, RuleNodeV>, done: Seq<Seq<char>>) -> Map<
    Seq<char>,
    RuleNodeV,
> {
    Map::new(
        |k: Seq<char>| r1.contains_key(k) || (done.contains(k) && classify(k) is Some),
        |k: Seq<char>| if r1.contains_key(k) { r1[k] } else { classify(k)->0 },
    )
}

/// The part of `t` before its first `::` holds no `::`, and starts with
/// `triangle[` only if `t` does.
proof fn lemma_split_base(t: Seq<char>, b: Seq<char>, c: Seq<char>)
    requires
        split_class(t) == Some((b, c)),
    ensures
        split_class(b) is None,
        is_triangle_name(b) ==> is_triangle_name(t),
{
    let i = find_in(t, class_sep(), 0, t.len() as int)->0;
    lemma_find_in_bounds(t, class_sep(), 0, t.len() as int);
    assert(b == t.subrange(0, i));
    lemma_find_in_subrange(t, class_sep(), 0, i, 0, i);
    lemma_find_in_bounds(t, class_sep(), 0, i);
    if find_in(t, class_sep(), 0, i) is Some {
        let k = find_in(t, class_sep(), 0, i)->0;
        assert(occurs_at(t, class_sep(), k));
        assert(!occurs_at(t, class_sep(), k));
    }
    if is_triangle_name(b) {
        assert(t.subrange(0, triangle_open().len() as int) =~= b.subrange(0, triangle_open().len() as int));
    }
}

/// The second pass on one target `t` not handled before: a target that is not
/// a rule yet gets a primitive if it names one; `user::class` is reported.
fn resolve_target(
    t: &String,
    rules: &mut Vec<(String, RuleNode)>,
    diagnostics: &mut Vec<Diagnostic>,
    Ghost(r1): Ghost<Map<Seq<char>, RuleNodeV>>,
    Ghost(done): Ghost<Seq<Seq<char>>>,
)
    requires
        names_distinct(old(rules)@),
        rules_view(old(rules)@) == rules_with_targets(r1, done),
        !done.contains(t@),
    ensures
        names_distinct(final(rules)@),
        rules_view(final(rules)@) == rules_with_targets(r1, done.push(t@)),
        diagnostics_view(final(diagnostics)@) == match class_problem(t@, r1) {
            Some(d) => diagnostics_view(old(diagnostics)@).push(d),
            None => diagnostics_view(old(diagnostics)@),
        },
{
    let ghost tv = t@;
    let ghost dprev = diagnostics_view(diagnostics@);
    proof {
        lemma_push_contains(done, tv);
        lemma_rules_view_key(rules@, tv);
    }
    assert(rules_view(rules@).contains_key(tv) == r1.contains_key(tv));
    if find_rule(rules, t.as_str()).is_some() {
        assert(rules_with_targets(r1, done.push(tv)) =~= rules_with_targets(r1, done));
        return;
    }
    if is_builtin(t.as_str()) {
        let entry = (t.clone(), RuleNode::Primitive { kind_name: t.clone(), class_tag: None });
        proof {
            lemma_rules_push(rules@, entry);
        }
        rules.push(entry);
        assert(rules_view(rules@) =~= rules_with_targets(r1, done.push(tv)));
        return;
    }
    if is_triangle_ref(t.as_str()) {
        let n = t.as_str().unicode_len();
        let tag = String::from_str(t.as_str().substring_char(8, n));
        let entry = (
            t.clone(),
            RuleNode::Primitive { kind_name: String::from_str("triangle"), class_tag: Some(tag) },
        );
        assert(tag@ =~= tv.skip(8));
        proof {
            lemma_rules_push(rules@, entry);
        }
        rules.push(entry);
        assert(rules_view(rules@) =~= rules_with_targets(r1, done.push(tv)));
        return;
    }
    match split_once_class(t.as_str()) {
        Some((base, class)) => {
            if is_builtin(base.as_str()) {
                let entry = (t.clone(), RuleNode::Primitive { kind_name: base, class_tag: Some(class) });
                proof {
                    lemma_rules_push(rules@, entry);
                }
                rules.push(entry);
                assert(rules_view(rules@) =~= rules_with_targets(r1, done.push(tv)));
                return;
            }
            proof {
                lemma_split_base(tv, base@, class@);
                lemma_rules_view_key(rules@, base@);
                assert(classify(base@) is None);
            }
            assert(rules_view(rules@).contains_key(base@) == r1.contains_key(base@));
            if find_rule(rules, base.as_str()).is_some() {
                let mut msg = String::from_str("Class specifier '::");
                msg.append(class.as_str());
                msg.append("' is only valid on built-in primitives, not on user rule '");
                msg.append(base.as_str());
                msg.append("'");
                assert(msg@ =~= class_message(base@, class@));
                diagnostics.push(Diagnostic::error(0, msg));
                assert(diagnostics_view(diagnostics@) =~= dprev.push(error_view(0, class_message(base@, class@))));
            }
            assert(rules_with_targets(r1, done.push(tv)) =~= rules_with_targets(r1, done));
        },
        None => {
            assert(rules_with_targets(r1, done.push(tv)) =~= rules_with_targets(r1, done));
        },
    }
    // Unknown name — left for validation to report.
}

/// Resolve a parsed `Script` into a `RuleGraph`.
///
/// Any recoverable issues are returned as diagnostics.  Hard errors (e.g. a
/// `::class` on a non-primitive) are also reported as diagnostics and the
/// graph is returned in its best-effort state.
pub fn resolve(script: &Script) -> (r: (RuleGraph, Vec<Diagnostic>))
    ensures
        r.0.wf(),
        r.0@.rules == resolved_rules(resolve_statements(script@)),
        r.0@.start_items == resolve_statements(script@).start_items,
        r.0@.recurse_depth == resolve_statements(script@).recurse_depth,
        exists|refs: Seq<Seq<char>>|
            {
                &&& refs.no_duplicates()
                &&& forall|t: Seq<char>|
                    #[trigger] refs.contains(t) <==> is_referenced(resolve_statements(script@), t)
                &&& diagnostics_view(r.1@) == resolve_statements(script@).diagnostics
                    + class_diagnostics(refs, resolve_statements(script@).rules)
            },
{
    let mut rules: Vec<(String, RuleNode)> = Vec::new();
    let mut start_items: Vec<StartItem> = Vec::new();
    let mut recurse_depth = false;
    let mut diagnostics: Vec<Diagnostic> = Vec::new();
    let ghost sv = script@;
    proof {
        assert(rules_view(rules@) =~= Map::<Seq<char>, RuleNodeV>::empty());
        assert(sv.take(0) =~= Seq::<StatementV>::empty());
    }

    // ── Pass 1: insert user rules ────────────────────────────────────────────
    for i in 0..script.statements.len()
        invariant
            sv == script@,
            names_distinct(rules@),
            rules_view(rules@) == resolve_statements(sv.take(i as int)).rules,
            start_items@.map_values(|s: StartItem| s@) == resolve_statements(sv.take(i as int)).start_items,
            recurse_depth == resolve_statements(sv.take(i as int)).recurse_depth,
            diagnostics_view(diagnostics@) == resolve_statements(sv.take(i as int)).diagnostics,
    {
        let ghost prev = resolve_statements(sv.take(i as int));
        assert(sv.take(i + 1).drop_last() =~= sv.take(i as int));
        assert(sv.take(i + 1).last() == script.statements@[i as int]@);
        let ghost old_start = start_items@.map_values(|s: StartItem| s@);
        match &script.statements[i] {
            Statement::RuleDef(def) => {
                define_rule(def, &mut rules, &mut diagnostics);
            },
            Statement::SetCmd(cmd) => {
                if str_eq(cmd.key.as_str(), "recursion") && str_eq(cmd.value.as_str(), "depth") {
                    recurse_depth = true;
                }
                start_items.push(StartItem::SetCmd(cmd.clone()));
                assert(start_items@.map_values(|s: StartItem| s@) =~= old_start.push(StartItemV::SetCmd(cmd@)));
            },
            Statement::Invocation(inv) => {
                start_items.push(StartItem::Action(inv.to_action()));
                assert(start_items@.map_values(|s: StartItem| s@) =~= old_start.push(StartItemV::Action(inv@)));
            },
        }
    }
    assert(sv.take(sv.len() as int) =~= sv);
    let ghost st = resolve_statements(sv);
    let ghost r1 = st.rules;
    let ghost d1 = st.diagnostics;

    // ── Pass 2: resolve rule targets ────────────────────────────────────────
    let refs = collect_all_targets(&rules, &start_items);
    let ghost rv = strings_view(refs@);
    proof {
        assert forall|t: Seq<char>| #[trigger] rv.contains(t) <==> is_referenced(st, t) by {
            if exists|i: int| 0 <= i < rules@.len() && node_refs((#[trigger] rules@[i]).1@, t) {
                let i = choose|i: int| 0 <= i < rules@.len() && node_refs((#[trigger] rules@[i]).1@, t);
                lemma_rules_view_entry(rules@, i);
                assert(r1.contains_key(rules@[i].0@));
            }
            if exists|k: Seq<char>| #[trigger] r1.contains_key(k) && node_refs(r1[k], t) {
                let k = choose|k: Seq<char>| #[trigger] r1.contains_key(k) && node_refs(r1[k], t);
                lemma_rules_view_key(rules@, k);
                let i = choose|i: int| 0 <= i < rules@.len() && (#[trigger] rules@[i]).0@ == k;
                lemma_rules_view_entry(rules@, i);
                assert(node_refs(rules@[i].1@, t));
            }
        }
        assert(rules_with_targets(r1, rv.take(0)) =~= r1);
        assert(class_diagnostics(rv.take(0), r1) =~= Seq::<DiagnosticV>::empty());
        assert(d1 + Seq::<DiagnosticV>::empty() =~= d1);
    }
    for j in 0..refs.len()
        invariant
            rv == strings_view(refs@),
            rv.no_duplicates(),
            names_distinct(rules@),
            rules_view(rules@) == rules_with_targets(r1, rv.take(j as int)),
            diagnostics_view(diagnostics@) == d1 + class_diagnostics(rv.take(j as int), r1),
    {
        let ghost done = rv.take(j as int);
        let ghost dprev = class_diagnostics(done, r1);
        assert(rv[j as int] == refs@[j as int]@);
        assert(rv.take(j + 1) =~= done.push(rv[j as int]));
        assert(!done.contains(rv[j as int])) by {
            if done.contains(rv[j as int]) {
                let m = choose|m: int| 0 <= m < done.len() && done[m] == rv[j as int];
                assert(rv[m] == rv[j as int]);
            }
        }
        assert(rv.take(j + 1).drop_last() =~= done);
        resolve_target(&refs[j], &mut rules, &mut diagnostics, Ghost(r1), Ghost(done));
        assert(d1 + class_diagnostics(rv.take(j + 1), r1) =~= match class_problem(rv[j as int], r1) {
            Some(d) => (d1 + dprev).push(d),
            None => d1 + dprev,
        });
    }
    assert(rv.take(refs@.len() as int) =~= rv);
    assert(rules_view(rules@) =~= resolved_rules(st));
    let graph = RuleGraph { rules, start_items, recurse_depth };
    (graph, diagnostics)
}

} // verus!
