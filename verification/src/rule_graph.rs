//! Rule graph — the resolved semantic representation of an EisenScript program:
//! named rules (custom, ambiguous or primitive), the top-level items in source
//! order, and whether depth-first recursion was requested.

use vstd::prelude::*;

use crate::ast::{opt_view, Action, ActionV, RuleDef, RuleDefV, SetCmd, SetCmdV};
use crate::primitive::str_eq;

verus! {

/// A top-level item from the parsed script.
#[derive(Debug)]
pub enum StartItem {
    Action(Action),
    SetCmd(SetCmd),
}

/// A resolved rule — either a user-defined custom rule, a set of ambiguous
/// weighted alternatives, or a built-in primitive.
#[derive(Debug)]
pub enum RuleNode {
    /// A single user-defined rule.
    Custom(CustomRuleNode),
    /// Multiple same-name user rules merged into weighted alternatives.
    Ambiguous(AmbiguousRuleNode),
    /// A built-in primitive (box, sphere, …) with an optional class tag.
    Primitive {
        /// Canonical primitive name: "box", "sphere", etc.
        kind_name: String,
        /// Optional class tag from `name::class` syntax (e.g. `"shiny"`).
        class_tag: Option<String>,
    },
}

/// A single user-defined rule variant.
#[derive(Debug)]
pub struct CustomRuleNode {
    pub name: String,
    /// The text of the weight, if the rule has one.
    pub weight: Option<String>,
    pub max_depth: Option<u32>,
    pub retirement: Option<String>,
    pub body: Vec<Action>,
}

/// Multiple weighted alternatives for the same rule name.
#[derive(Debug)]
pub struct AmbiguousRuleNode {
    pub name: String,
    pub variants: Vec<CustomRuleNode>,
}

/// A resolved rule graph, ready for evaluation. `rules` holds one entry per
/// rule name (see [`RuleGraph::wf`]).
#[derive(Debug)]
pub struct RuleGraph {
    /// All named rules (user-defined, ambiguous, and primitives with class tags).
    pub rules: Vec<(String, RuleNode)>,
    /// Top-level items (start actions and set commands) in source order.
    pub start_items: Vec<StartItem>,
    /// Whether `set recursion depth` was encountered.
    pub recurse_depth: bool,
}

// ── Values ─────────────────────────────────────────────────────────────────

pub enum StartItemV {
    Action(ActionV),
    SetCmd(SetCmdV),
}

pub struct AmbiguousRuleNodeV {
    pub name: Seq<char>,
    pub variants: Seq<RuleDefV>,
}

pub enum RuleNodeV {
    Custom(RuleDefV),
    Ambiguous(AmbiguousRuleNodeV),
    Primitive { kind_name: Seq<char>, class_tag: Option<Seq<char>> },
}

pub struct RuleGraphV {
    pub rules: Map<Seq<char>, RuleNodeV>,
    pub start_items: Seq<StartItemV>,
    pub recurse_depth: bool,
}

impl View for StartItem {
    type V = StartItemV;

    open spec fn view(&self) -> StartItemV {
        match self {
            StartItem::Action(a) => StartItemV::Action(a@),
            StartItem::SetCmd(c) => StartItemV::SetCmd(c@),
        }
    }
}

impl View for CustomRuleNode {
    type V = RuleDefV;

    open spec fn view(&self) -> RuleDefV {
        RuleDefV {
            name: self.name@,
            weight: opt_view(self.weight),
            max_depth: self.max_depth,
            retirement: opt_view(self.retirement),
            body: self.body@.map_values(|a: Action| a@),
        }
    }
}

impl View for AmbiguousRuleNode {
    type V = AmbiguousRuleNodeV;

    open spec fn view(&self) -> AmbiguousRuleNodeV {
        AmbiguousRuleNodeV {
            name: self.name@,
            variants: self.variants@.map_values(|v: CustomRuleNode| v@),
        }
    }
}

impl View for RuleNode {
    type V = RuleNodeV;

    open spec fn view(&self) -> RuleNodeV {
        match self {
            RuleNode::Custom(c) => RuleNodeV::Custom(c@),
            RuleNode::Ambiguous(a) => RuleNodeV::Ambiguous(a@),
            RuleNode::Primitive { kind_name, class_tag } => RuleNodeV::Primitive {
                kind_name: kind_name@,
                class_tag: opt_view(*class_tag),
            },
        }
    }
}

/// The node of the first entry named `k`.
pub open spec fn lookup(e: Seq<(String, RuleNode)>, k: Seq<char>) -> Option<RuleNodeV>
    decreases e.len(),
{
    if e.len() == 0 {
        None
    } else if e[0].0@ == k {
        Some(e[0].1@)
    } else {
        lookup(e.drop_first(), k)
    }
}

/// The rules as a map from name to node.
pub open spec fn rules_view(e: Seq<(String, RuleNode)>) -> Map<Seq<char>, RuleNodeV> {
    Map::new(|k: Seq<char>| lookup(e, k) is Some, |k: Seq<char>| lookup(e, k)->0)
}

/// No two entries share a name.
pub open spec fn names_distinct(e: Seq<(String, RuleNode)>) -> bool {
    forall|i: int, j: int|
        0 <= i < e.len() && 0 <= j < e.len() && i != j ==> (#[trigger] e[i]).0@ != (#[trigger] e[j]).0@
}

/// Some entry is named `k`.
pub open spec fn has_name(e: Seq<(String, RuleNode)>, k: Seq<char>) -> bool {
    exists|i: int| 0 <= i < e.len() && (#[trigger] e[i]).0@ == k
}

impl View for RuleGraph {
    type V = RuleGraphV;

    open spec fn view(&self) -> RuleGraphV {
        RuleGraphV {
            rules: rules_view(self.rules@),
            start_items: self.start_items@.map_values(|s: StartItem| s@),
            recurse_depth: self.recurse_depth,
        }
    }
}

impl RuleGraph {
    /// Each rule name has one entry.
    pub open spec fn wf(&self) -> bool {
        names_distinct(self.rules@)
    }

    /// Look up a rule by name.
    pub fn get(&self, name: &str) -> (r: Option<&RuleNode>)
        ensures
            match r {
                Some(n) => self@.rules.contains_key(name@) && self@.rules[name@] == n@,
                None => !self@.rules.contains_key(name@),
            },
    {
        match find_rule(&self.rules, name) {
            Some(i) => {
                proof {
                    lemma_lookup_first(self.rules@, i as int);
                }
                Some(&self.rules[i].1)
            },
            None => {
                proof {
                    lemma_lookup_absent(self.rules@, name@);
                }
                None
            },
        }
    }
}

impl CustomRuleNode {
    pub fn from_rule_def(def: RuleDef) -> (r: Self)
        ensures
            r@ == def@,
    {
        Self {
            name: def.name,
            weight: def.weight,
            max_depth: def.max_depth,
            retirement: def.retirement,
            body: def.body,
        }
    }
}

/// The index of the first entry named `name`.
pub fn find_rule(rules: &Vec<(String, RuleNode)>, name: &str) -> (r: Option<usize>)
    ensures
        match r {
            Some(i) => i < rules@.len() && rules@[i as int].0@ == name@ && forall|j: int|
                0 <= j < i ==> (#[trigger] rules@[j]).0@ != name@,
            None => !has_name(rules@, name@),
        },
{
    for i in 0..rules.len()
        invariant
            forall|j: int| 0 <= j < i ==> (#[trigger] rules@[j]).0@ != name@,
    {
        if str_eq(rules[i].0.as_str(), name) {
            return Some(i);
        }
    }
    None
}

/// An entry that no earlier entry shares a name with is what `lookup` finds.
pub proof fn lemma_lookup_first(e: Seq<(String, RuleNode)>, i: int)
    requires
        0 <= i < e.len(),
        forall|j: int| 0 <= j < i ==> (#[trigger] e[j]).0@ != e[i].0@,
    ensures
        lookup(e, e[i].0@) == Some(e[i].1@),
    decreases i,
{
    if i > 0 {
        let k = e[i].0@;
        assert(e[0].0@ != k);
        assert forall|j: int| 0 <= j < i - 1 implies (#[trigger] e.drop_first()[j]).0@ != e.drop_first()[i
            - 1].0@ by {
            assert(e.drop_first()[j] == e[j + 1]);
        }
        lemma_lookup_first(e.drop_first(), i - 1);
    }
}

/// With distinct names, each entry is what `lookup` finds for its name.
pub proof fn lemma_lookup_at(e: Seq<(String, RuleNode)>, i: int)
    requires
        0 <= i < e.len(),
        names_distinct(e),
    ensures
        lookup(e, e[i].0@) == Some(e[i].1@),
{
    assert forall|j: int| 0 <= j < i implies (#[trigger] e[j]).0@ != e[i].0@ by {}
    lemma_lookup_first(e, i);
}

/// A name that no entry has is not found.
pub proof fn lemma_lookup_absent(e: Seq<(String, RuleNode)>, k: Seq<char>)
    requires
        !has_name(e, k),
    ensures
        lookup(e, k) is None,
    decreases e.len(),
{
    if e.len() > 0 {
        assert(e[0].0@ != k);
        assert(!has_name(e.drop_first(), k)) by {
            if has_name(e.drop_first(), k) {
                let i = choose|i: int| 0 <= i < e.drop_first().len() && (#[trigger] e.drop_first()[i]).0@ == k;
                assert(e[i + 1] == e.drop_first()[i]);
            }
        }
        lemma_lookup_absent(e.drop_first(), k);
    }
}

/// What `lookup` finds is some entry with that name.
pub proof fn lemma_lookup_found(e: Seq<(String, RuleNode)>, k: Seq<char>)
    requires
        lookup(e, k) is Some,
    ensures
        exists|i: int| 0 <= i < e.len() && (#[trigger] e[i]).0@ == k && lookup(e, k) == Some(e[i].1@),
    decreases e.len(),
{
    if e[0].0@ != k {
        lemma_lookup_found(e.drop_first(), k);
        let i = choose|i: int|
            0 <= i < e.drop_first().len() && (#[trigger] e.drop_first()[i]).0@ == k && lookup(
                e.drop_first(),
                k,
            ) == Some(e.drop_first()[i].1@);
        assert(e[i + 1] == e.drop_first()[i]);
    } else {
        assert(e[0].0@ == k);
    }
}

// ── Copies ─────────────────────────────────────────────────────────────────

impl Clone for StartItem {
    fn clone(&self) -> (r: Self)
        ensures
            r@ == self@,
    {
        match self {
            StartItem::Action(a) => StartItem::Action(a.clone()),
            StartItem::SetCmd(c) => StartItem::SetCmd(c.clone()),
        }
    }
}

impl Clone for CustomRuleNode {
    fn clone(&self) -> (r: Self)
        ensures
            r@ == self@,
    {
        CustomRuleNode {
            name: self.name.clone(),
            weight: crate::ast::copy_opt_string(&self.weight),
            max_depth: self.max_depth,
            retirement: crate::ast::copy_opt_string(&self.retirement),
            body: crate::ast::copy_actions(&self.body),
        }
    }
}

impl Clone for AmbiguousRuleNode {
    fn clone(&self) -> (r: Self)
        ensures
            r@ == self@,
    {
        let mut variants: Vec<CustomRuleNode> = Vec::new();
        for i in 0..self.variants.len()
            invariant
                variants@.len() == i,
                forall|j: int| 0 <= j < i ==> (#[trigger] variants@[j])@ == self.variants@[j]@,
        {
            variants.push(self.variants[i].clone());
        }
        let r = AmbiguousRuleNode { name: self.name.clone(), variants };
        assert(r@.variants =~= self@.variants);
        r
    }
}

impl Clone for RuleNode {
    fn clone(&self) -> (r: Self)
        ensures
            r@ == self@,
    {
        match self {
            RuleNode::Custom(c) => RuleNode::Custom(c.clone()),
            RuleNode::Ambiguous(a) => RuleNode::Ambiguous(a.clone()),
            RuleNode::Primitive { kind_name, class_tag } => RuleNode::Primitive {
                kind_name: kind_name.clone(),
                class_tag: crate::ast::copy_opt_string(class_tag),
            },
        }
    }
}

impl Clone for RuleGraph {
    fn clone(&self) -> (r: Self)
        ensures
            r@ == self@,
            r.rules@.len() == self.rules@.len(),
            forall|i: int|
                0 <= i < self.rules@.len() ==> (#[trigger] r.rules@[i]).0@ == self.rules@[i].0@
                    && r.rules@[i].1@ == self.rules@[i].1@,
            r.wf() == self.wf(),
    {
        let mut rules: Vec<(String, RuleNode)> = Vec::new();
        for i in 0..self.rules.len()
            invariant
                rules@.len() == i,
                forall|j: int|
                    0 <= j < i ==> (#[trigger] rules@[j]).0@ == self.rules@[j].0@ && rules@[j].1@
                        == self.rules@[j].1@,
        {
            rules.push((self.rules[i].0.clone(), self.rules[i].1.clone()));
        }
        let mut start_items: Vec<StartItem> = Vec::new();
        for i in 0..self.start_items.len()
            invariant
                start_items@.len() == i,
                forall|j: int| 0 <= j < i ==> (#[trigger] start_items@[j])@ == self.start_items@[j]@,
        {
            start_items.push(self.start_items[i].clone());
        }
        let r = RuleGraph { rules, start_items, recurse_depth: self.recurse_depth };
        proof {
            lemma_same_entries_same_lookup(r.rules@, self.rules@);
            assert(r@.rules =~= self@.rules);
            assert(r@.start_items =~= self@.start_items);
            assert(r.wf() == self.wf()) by {
                if r.wf() {
                    assert forall|i: int, j: int|
                        0 <= i < self.rules@.len() && 0 <= j < self.rules@.len() && i != j implies (
                    #[trigger] self.rules@[i]).0@ != (#[trigger] self.rules@[j]).0@ by {
                        assert(r.rules@[i].0@ != r.rules@[j].0@);
                    }
                }
                if self.wf() {
                    assert forall|i: int, j: int|
                        0 <= i < r.rules@.len() && 0 <= j < r.rules@.len() && i != j implies (
                    #[trigger] r.rules@[i]).0@ != (#[trigger] r.rules@[j]).0@ by {
                        assert(self.rules@[i].0@ != self.rules@[j].0@);
                    }
                }
            }
        }
        r
    }
}

/// Entry lists with the same names and nodes, position by position, look up
/// the same way.
pub proof fn lemma_same_entries_same_lookup(a: Seq<(String, RuleNode)>, b: Seq<(String, RuleNode)>)
    requires
        a.len() == b.len(),
        forall|i: int| 0 <= i < a.len() ==> (#[trigger] a[i]).0@ == b[i].0@ && a[i].1@ == b[i].1@,
    ensures
        forall|k: Seq<char>| #[trigger] lookup(a, k) == lookup(b, k),
    decreases a.len(),
{
    if a.len() > 0 {
        assert forall|i: int| 0 <= i < a.drop_first().len() implies (#[trigger] a.drop_first()[i]).0@
            == b.drop_first()[i].0@ && a.drop_first()[i].1@ == b.drop_first()[i].1@ by {
            assert(a.drop_first()[i] == a[i + 1]);
            assert(b.drop_first()[i] == b[i + 1]);
        }
        lemma_same_entries_same_lookup(a.drop_first(), b.drop_first());
        assert(a[0].0@ == b[0].0@ && a[0].1@ == b[0].1@);
        assert forall|k: Seq<char>| #[trigger] lookup(a, k) == lookup(b, k) by {
            assert(lookup(a.drop_first(), k) == lookup(b.drop_first(), k));
        }
    } else {
        assert forall|k: Seq<char>| #[trigger] lookup(a, k) == lookup(b, k) by {}
    }
}

} // verus!
