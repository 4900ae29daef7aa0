//! Validation pass — checks the resolved [`RuleGraph`] for semantic errors:
//! every action target, and every retirement rule, must name a rule of the
//! graph.

use vstd::prelude::*;

use crate::ast::{Action, ActionV, RuleDefV};
use crate::diagnostics::{error_view, Diagnostic, DiagnosticV};
use crate::ast::StatementV;
use crate::resolution::{
    classify, diagnostics_view, is_referenced, resolve_statements, resolved_rules,
};
use crate::rule_graph::{
    lemma_lookup_at, lemma_lookup_found,
    find_rule, has_name, lookup, rules_view, CustomRuleNode, RuleGraph, RuleNode, RuleNodeV,
    StartItem, StartItemV,
};

verus! {

pub open spec fn undefined_message(t: Seq<char>) -> Seq<char> {
    "Undefined rule reference: '"@ + t + "'"@
}

/// The report for one reference: nothing if `t` names a rule, else one error.
pub open spec fn check_name(rules: Map<Seq<char>, RuleNodeV>, t: Seq<char>) -> Seq<DiagnosticV> {
    if rules.contains_key(t) {
        seq![]
    } else {
        seq![error_view(0, undefined_message(t))]
    }
}

/// The reports for the targets of `body`, in order.
pub open spec fn check_actions(rules: Map<Seq<char>, RuleNodeV>, body: Seq<ActionV>) -> Seq<DiagnosticV>
    decreases body.len(),
{
    if body.len() == 0 {
        seq![]
    } else {
        check_actions(rules, body.drop_last()) + check_name(rules, body.last().target)
    }
}

/// The reports for one rule variant: its body, then its retirement rule.
pub open spec fn check_variant(rules: Map<Seq<char>, RuleNodeV>, v: RuleDefV) -> Seq<DiagnosticV> {
    check_actions(rules, v.body) + match v.retirement {
        Some(r) => check_name(rules, r),
        None => seq![],
    }
}

/// The reports for the variants `vs`, in order.
pub open spec fn check_variants(rules: Map<Seq<char>, RuleNodeV>, vs: Seq<RuleDefV>) -> Seq<DiagnosticV>
    decreases vs.len(),
{
    if vs.len() == 0 {
        seq![]
    } else {
        check_variants(rules, vs.drop_last()) + check_variant(rules, vs.last())
    }
}

/// The reports for one rule.
pub open spec fn check_node(rules: Map<Seq<char>, RuleNodeV>, n: RuleNodeV) -> Seq<DiagnosticV> {
    match n {
        RuleNodeV::Custom(c) => check_variant(rules, c),
        RuleNodeV::Ambiguous(a) => check_variants(rules, a.variants),
        RuleNodeV::Primitive { .. } => seq![],
    }
}

/// The reports for the top-level actions, in order.
pub open spec fn check_start(rules: Map<Seq<char>, RuleNodeV>, items: Seq<StartItemV>) -> Seq<DiagnosticV>
    decreases items.len(),
{
    if items.len() == 0 {
        seq![]
    } else {
        check_start(rules, items.drop_last()) + match items.last() {
            StartItemV::Action(a) => check_name(rules, a.target),
            StartItemV::SetCmd(_) => seq![],
        }
    }
}

/// The reports for the rules `nodes`, in order.
pub open spec fn check_nodes(rules: Map<Seq<char>, RuleNodeV>, nodes: Seq<RuleNodeV>) -> Seq<DiagnosticV>
    decreases nodes.len(),
{
    if nodes.len() == 0 {
        seq![]
    } else {
        check_nodes(rules, nodes.drop_last()) + check_node(rules, nodes.last())
    }
}

/// Everything that validation reports for a graph: the top-level targets,
/// then each rule in the graph's order.
pub open spec fn validation_report(g: RuleGraph) -> Seq<DiagnosticV> {
    check_start(g@.rules, g@.start_items) + check_nodes(
        g@.rules,
        g.rules@.map_values(|e: (String, RuleNode)| e.1@),
    )
}

fn check_target(target: &String, graph: &RuleGraph, diagnostics: &mut Vec<Diagnostic>)
    ensures
        diagnostics_view(final(diagnostics)@) == diagnostics_view(old(diagnostics)@) + check_name(
            graph@.rules,
            target@,
        ),
{
    let ghost before = diagnostics_view(diagnostics@);
    proof {
        crate::resolution::lemma_rules_view_key(graph.rules@, target@);
    }
    if find_rule(&graph.rules, target.as_str()).is_none() {
        let mut msg = String::from_str("Undefined rule reference: '");
        msg.append(target.as_str());
        msg.append("'");
        diagnostics.push(Diagnostic::error(0, msg));
        assert(diagnostics_view(diagnostics@) =~= before + check_name(graph@.rules, target@));
    } else {
        assert(diagnostics_view(diagnostics@) =~= before + check_name(graph@.rules, target@));
    }
}

fn check_body(body: &Vec<Action>, graph: &RuleGraph, diagnostics: &mut Vec<Diagnostic>)
    ensures
        diagnostics_view(final(diagnostics)@) == diagnostics_view(old(diagnostics)@) + check_actions(
            graph@.rules,
            body@.map_values(|a: Action| a@),
        ),
{
    let ghost bv = body@.map_values(|a: Action| a@);
    let ghost before = diagnostics_view(diagnostics@);
    for i in 0..body.len()
        invariant
            bv == body@.map_values(|a: Action| a@),
            diagnostics_view(diagnostics@) == before + check_actions(graph@.rules, bv.take(i as int)),
    {
        check_target(&body[i].target, graph, diagnostics);
        assert(bv.take(i + 1).drop_last() =~= bv.take(i as int));
        assert(bv.take(i + 1).last() == body@[i as int]@);
        assert(before + check_actions(graph@.rules, bv.take(i + 1)) =~= before + check_actions(
            graph@.rules,
            bv.take(i as int),
        ) + check_name(graph@.rules, body@[i as int]@.target));
    }
    assert(bv.take(body@.len() as int) =~= bv);
}

fn check_custom(c: &CustomRuleNode, graph: &RuleGraph, diagnostics: &mut Vec<Diagnostic>)
    ensures
        diagnostics_view(final(diagnostics)@) == diagnostics_view(old(diagnostics)@) + check_variant(
            graph@.rules,
            c@,
        ),
{
    let ghost before = diagnostics_view(diagnostics@);
    check_body(&c.body, graph, diagnostics);
    let ghost mid = diagnostics_view(diagnostics@);
    if let Some(ret) = &c.retirement {
        check_target(ret, graph, diagnostics);
    }
    assert(diagnostics_view(diagnostics@) =~= before + check_variant(graph@.rules, c@));
}

/// Validate a resolved [`RuleGraph`] and return any semantic diagnostics.
pub fn validate(graph: &RuleGraph) -> (r: Vec<Diagnostic>)
    ensures
        diagnostics_view(r@) == validation_report(*graph),
{
    let mut diagnostics: Vec<Diagnostic> = Vec::new();
    let ghost sv = graph.start_items@.map_values(|s: StartItem| s@);
    assert(diagnostics_view(diagnostics@) =~= check_start(graph@.rules, sv.take(0)));

    // Check start-item action targets
    for i in 0..graph.start_items.len()
        invariant
            sv == graph.start_items@.map_values(|s: StartItem| s@),
            diagnostics_view(diagnostics@) == check_start(graph@.rules, sv.take(i as int)),
    {
        let ghost before = diagnostics_view(diagnostics@);
        assert(sv.take(i + 1).drop_last() =~= sv.take(i as int));
        assert(sv.take(i + 1).last() == graph.start_items@[i as int]@);
        if let StartItem::Action(a) = &graph.start_items[i] {
            check_target(&a.target, graph, &mut diagnostics);
        } else {
            assert(diagnostics_view(diagnostics@) =~= before + Seq::<DiagnosticV>::empty());
        }
    }
    assert(sv.take(sv.len() as int) =~= sv);

    // Check each rule body
    let ghost nv = graph.rules@.map_values(|e: (String, RuleNode)| e.1@);
    let ghost base = diagnostics_view(diagnostics@);
    assert(base + check_nodes(graph@.rules, nv.take(0)) =~= base);
    for i in 0..graph.rules.len()
        invariant
            nv == graph.rules@.map_values(|e: (String, RuleNode)| e.1@),
            diagnostics_view(diagnostics@) == base + check_nodes(graph@.rules, nv.take(i as int)),
    {
        let ghost before = diagnostics_view(diagnostics@);
        assert(nv.take(i + 1).drop_last() =~= nv.take(i as int));
        assert(nv.take(i + 1).last() == graph.rules@[i as int].1@);
        match &graph.rules[i].1 {
            RuleNode::Custom(c) => {
                check_custom(c, graph, &mut diagnostics);
            },
            RuleNode::Ambiguous(a) => {
                let ghost vv = a@.variants;
                for k in 0..a.variants.len()
                    invariant
                        vv == a@.variants,
                        diagnostics_view(diagnostics@) == before + check_variants(graph@.rules, vv.take(k as int)),
                {
                    assert(vv.take(k + 1).drop_last() =~= vv.take(k as int));
                    assert(vv.take(k + 1).last() == a.variants@[k as int]@);
                    check_custom(&a.variants[k], graph, &mut diagnostics);
                    assert(before + check_variants(graph@.rules, vv.take(k + 1)) =~= before
                        + check_variants(graph@.rules, vv.take(k as int)) + check_variant(
                        graph@.rules,
                        a.variants@[k as int]@,
                    ));
                }
                assert(vv.take(vv.len() as int) =~= vv);
            },
            RuleNode::Primitive { .. } => {
                assert(diagnostics_view(diagnostics@) =~= before + Seq::<DiagnosticV>::empty());
            },
        }
        assert(base + check_nodes(graph@.rules, nv.take(i + 1)) =~= base + check_nodes(
            graph@.rules,
            nv.take(i as int),
        ) + check_node(graph@.rules, graph.rules@[i as int].1@));
    }
    assert(nv.take(nv.len() as int) =~= nv);
    diagnostics
}

// ── Validation is silent exactly when every reference is defined ───────────

/// Every target of `body` names a rule.
pub open spec fn body_defined(rules: Map<Seq<char>, RuleNodeV>, body: Seq<ActionV>) -> bool {
    forall|i: int| 0 <= i < body.len() ==> rules.contains_key(#[trigger] body[i].target)
}

/// Every target of the variant's body, and its retirement rule, names a rule.
pub open spec fn variant_defined(rules: Map<Seq<char>, RuleNodeV>, v: RuleDefV) -> bool {
    &&& body_defined(rules, v.body)
    &&& v.retirement matches Some(r) ==> rules.contains_key(r)
}

/// Every reference of a rule names a rule.
pub open spec fn node_defined(rules: Map<Seq<char>, RuleNodeV>, n: RuleNodeV) -> bool {
    match n {
        RuleNodeV::Custom(c) => variant_defined(rules, c),
        RuleNodeV::Ambiguous(a) => forall|j: int|
            0 <= j < a.variants.len() ==> variant_defined(rules, #[trigger] a.variants[j]),
        RuleNodeV::Primitive { .. } => true,
    }
}

/// Every top-level action targets a rule.
pub open spec fn start_defined(rules: Map<Seq<char>, RuleNodeV>, items: Seq<StartItemV>) -> bool {
    forall|i: int|
        0 <= i < items.len() ==> (#[trigger] items[i] matches StartItemV::Action(a) ==> rules.contains_key(
            a.target,
        ))
}

proof fn lemma_check_actions_empty(rules: Map<Seq<char>, RuleNodeV>, body: Seq<ActionV>)
    ensures
        (check_actions(rules, body).len() == 0) == body_defined(rules, body),
    decreases body.len(),
{
    if body.len() > 0 {
        lemma_check_actions_empty(rules, body.drop_last());
        let last = body.len() - 1;
        assert(body.drop_last().len() == last);
        if body_defined(rules, body) {
            assert forall|i: int| 0 <= i < body.drop_last().len() implies rules.contains_key(
                #[trigger] body.drop_last()[i].target,
            ) by {
                assert(body.drop_last()[i] == body[i]);
            }
            assert(rules.contains_key(body[last].target));
        }
        if body_defined(rules, body.drop_last()) && rules.contains_key(body.last().target) {
            assert forall|i: int| 0 <= i < body.len() implies rules.contains_key(
                #[trigger] body[i].target,
            ) by {
                if i < last {
                    assert(body.drop_last()[i] == body[i]);
                }
            }
        }
    }
}

proof fn lemma_check_variant_empty(rules: Map<Seq<char>, RuleNodeV>, v: RuleDefV)
    ensures
        (check_variant(rules, v).len() == 0) == variant_defined(rules, v),
{
    lemma_check_actions_empty(rules, v.body);
}

proof fn lemma_check_variants_empty(rules: Map<Seq<char>, RuleNodeV>, vs: Seq<RuleDefV>)
    ensures
        (check_variants(rules, vs).len() == 0) == forall|j: int|
            0 <= j < vs.len() ==> variant_defined(rules, #[trigger] vs[j]),
    decreases vs.len(),
{
    if vs.len() > 0 {
        lemma_check_variants_empty(rules, vs.drop_last());
        lemma_check_variant_empty(rules, vs.last());
        let last = vs.len() - 1;
        if forall|j: int| 0 <= j < vs.len() ==> variant_defined(rules, #[trigger] vs[j]) {
            assert forall|j: int| 0 <= j < vs.drop_last().len() implies variant_defined(
                rules,
                #[trigger] vs.drop_last()[j],
            ) by {
                assert(vs.drop_last()[j] == vs[j]);
            }
            assert(variant_defined(rules, vs[last]));
        }
        if (forall|j: int|
            0 <= j < vs.drop_last().len() ==> variant_defined(rules, #[trigger] vs.drop_last()[j]))
            && variant_defined(rules, vs.last()) {
            assert forall|j: int| 0 <= j < vs.len() implies variant_defined(rules, #[trigger] vs[j]) by {
                if j < last {
                    assert(vs.drop_last()[j] == vs[j]);
                }
            }
        }
    }
}

proof fn lemma_check_node_empty(rules: Map<Seq<char>, RuleNodeV>, n: RuleNodeV)
    ensures
        (check_node(rules, n).len() == 0) == node_defined(rules, n),
{
    match n {
        RuleNodeV::Custom(c) => lemma_check_variant_empty(rules, c),
        RuleNodeV::Ambiguous(a) => lemma_check_variants_empty(rules, a.variants),
        RuleNodeV::Primitive { .. } => {},
    }
}

proof fn lemma_check_start_empty(rules: Map<Seq<char>, RuleNodeV>, items: Seq<StartItemV>)
    ensures
        (check_start(rules, items).len() == 0) == start_defined(rules, items),
    decreases items.len(),
{
    if items.len() > 0 {
        lemma_check_start_empty(rules, items.drop_last());
        let last = items.len() - 1;
        if start_defined(rules, items) {
            assert forall|i: int| 0 <= i < items.drop_last().len() implies (
            #[trigger] items.drop_last()[i] matches StartItemV::Action(a) ==> rules.contains_key(
                a.target,
            )) by {
                assert(items.drop_last()[i] == items[i]);
            }
            assert(items[last] == items.last());
        }
        if start_defined(rules, items.drop_last()) && (items.last() matches StartItemV::Action(a)
            ==> rules.contains_key(a.target)) {
            assert forall|i: int| 0 <= i < items.len() implies (#[trigger] items[i] matches StartItemV::Action(
                a,
            ) ==> rules.contains_key(a.target)) by {
                if i < last {
                    assert(items.drop_last()[i] == items[i]);
                }
            }
        }
    }
}

proof fn lemma_check_nodes_empty(rules: Map<Seq<char>, RuleNodeV>, nodes: Seq<RuleNodeV>)
    ensures
        (check_nodes(rules, nodes).len() == 0) == forall|j: int|
            0 <= j < nodes.len() ==> node_defined(rules, #[trigger] nodes[j]),
    decreases nodes.len(),
{
    if nodes.len() > 0 {
        lemma_check_nodes_empty(rules, nodes.drop_last());
        lemma_check_node_empty(rules, nodes.last());
        let last = nodes.len() - 1;
        if forall|j: int| 0 <= j < nodes.len() ==> node_defined(rules, #[trigger] nodes[j]) {
            assert forall|j: int| 0 <= j < nodes.drop_last().len() implies node_defined(
                rules,
                #[trigger] nodes.drop_last()[j],
            ) by {
                assert(nodes.drop_last()[j] == nodes[j]);
            }
            assert(node_defined(rules, nodes[last]));
        }
        if (forall|j: int|
            0 <= j < nodes.drop_last().len() ==> node_defined(rules, #[trigger] nodes.drop_last()[j]))
            && node_defined(rules, nodes.last()) {
            assert forall|j: int| 0 <= j < nodes.len() implies node_defined(rules, #[trigger] nodes[j]) by {
                if j < last {
                    assert(nodes.drop_last()[j] == nodes[j]);
                }
            }
        }
    }
}

/// Validation reports nothing exactly when every top-level target, every
/// body target and every retirement rule of the graph names a rule of the
/// graph.
pub proof fn lemma_validation_silent_iff_defined(g: RuleGraph)
    requires
        g.wf(),
    ensures
        (validation_report(g).len() == 0) == (start_defined(g@.rules, g@.start_items) && forall|
            k: Seq<char>,
        | #[trigger] g@.rules.contains_key(k) ==> node_defined(g@.rules, g@.rules[k])),
{
    let rules = g@.rules;
    let e = g.rules@;
    let nodes = e.map_values(|x: (String, RuleNode)| x.1@);
    lemma_check_start_empty(rules, g@.start_items);
    lemma_check_nodes_empty(rules, nodes);
    let all_nodes = forall|j: int| 0 <= j < nodes.len() ==> node_defined(rules, #[trigger] nodes[j]);
    let all_keys = forall|k: Seq<char>|
        #[trigger] rules.contains_key(k) ==> node_defined(rules, rules[k]);
    if all_nodes {
        assert forall|k: Seq<char>| #[trigger] rules.contains_key(k) implies node_defined(
            rules,
            rules[k],
        ) by {
            lemma_lookup_found(e, k);
            let i = choose|i: int|
                0 <= i < e.len() && (#[trigger] e[i]).0@ == k && lookup(e, k) == Some(e[i].1@);
            assert(nodes[i] == e[i].1@);
        }
    }
    if all_keys {
        assert forall|j: int| 0 <= j < nodes.len() implies node_defined(rules, #[trigger] nodes[j]) by {
            lemma_lookup_at(e, j);
            assert(rules.contains_key(e[j].0@));
            assert(nodes[j] == e[j].1@);
        }
    }
}

/// After resolution, every target that the program refers to and that names
/// a primitive (a built-in, an inline triangle or `builtin::class`) is a rule
/// of the graph, so validation never reports it as undefined.
pub proof fn lemma_referenced_primitives_defined(stmts: Seq<StatementV>, t: Seq<char>)
    requires
        is_referenced(resolve_statements(stmts), t),
        classify(t) is Some,
    ensures
        resolved_rules(resolve_statements(stmts)).contains_key(t),
        check_name(resolved_rules(resolve_statements(stmts)), t).len() == 0,
{
}

} // verus!
