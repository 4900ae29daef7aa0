//! EisenScript AST node types.

use vstd::prelude::*;

verus! {

/// The characters of each string.
pub open spec fn strings_of(v: Seq<String>) -> Seq<Seq<char>> {
    v.map_values(|s: String| s@)
}

/// A copy of a list of strings.
pub fn copy_strings(v: &Vec<String>) -> (r: Vec<String>)
    ensures
        strings_of(r@) == strings_of(v@),
{
    let mut r: Vec<String> = Vec::new();
    for i in 0..v.len()
        invariant
            r@.len() == i,
            forall|j: int| 0 <= j < i ==> (#[trigger] r@[j])@ == v@[j]@,
    {
        r.push(v[i].clone());
    }
    assert(strings_of(r@) =~= strings_of(v@));
    r
}

/// A copy of an optional string.
pub fn copy_opt_string(s: &Option<String>) -> (r: Option<String>)
    ensures
        opt_view(r) == opt_view(*s),
{
    match s {
        Some(t) => Some(t.clone()),
        None => None,
    }
}

/// The characters of an optional string.
pub open spec fn opt_view(s: Option<String>) -> Option<Seq<char>> {
    match s {
        Some(t) => Some(t@),
        None => None,
    }
}

/// Top-level script.
#[derive(Debug)]
pub struct Script {
    pub statements: Vec<Statement>,
}

/// A top-level statement in a script.
#[derive(Debug)]
pub enum Statement {
    /// A rule definition: `rule <name> [modifiers] { ... }`
    RuleDef(RuleDef),
    /// A set command: `set <key> <value>`
    SetCmd(SetCmd),
    /// A top-level rule invocation with optional transform: `[transform] rulename`
    Invocation(Invocation),
}

/// A rule definition.
#[derive(Debug)]
pub struct RuleDef {
    pub name: String,
    /// The text of the rule's weight among same-name rules (`w 2.5`), if it
    /// has one; the number is read by the caller.
    pub weight: Option<String>,
    pub max_depth: Option<u32>,
    pub retirement: Option<String>,
    pub body: Vec<Action>,
}

/// An action inside a rule body.
#[derive(Debug)]
pub struct Action {
    pub transforms: Vec<Transform>,
    pub count: Option<u32>,
    pub target: String,
}

/// A set command.
#[derive(Debug)]
pub struct SetCmd {
    pub key: String,
    pub value: String,
}

/// A top-level invocation.
#[derive(Debug)]
pub struct Invocation {
    pub transforms: Vec<Transform>,
    pub count: Option<u32>,
    pub target: String,
}

/// A single transform step: an operator name and the text of its arguments
/// (numbers, or a colour for `color` and `blend`); the numbers are read by
/// the caller.
#[derive(Debug)]
pub struct Transform {
    pub op: String,
    pub args: Vec<String>,
}

// ── Values ─────────────────────────────────────────────────────────────────

pub struct TransformV {
    pub op: Seq<char>,
    pub args: Seq<Seq<char>>,
}

/// The value of an action (and of an invocation, which has the same parts).
pub struct ActionV {
    pub transforms: Seq<TransformV>,
    pub count: Option<u32>,
    pub target: Seq<char>,
}

pub struct SetCmdV {
    pub key: Seq<char>,
    pub value: Seq<char>,
}

pub struct RuleDefV {
    pub name: Seq<char>,
    pub weight: Option<Seq<char>>,
    pub max_depth: Option<u32>,
    pub retirement: Option<Seq<char>>,
    pub body: Seq<ActionV>,
}

pub enum StatementV {
    RuleDef(RuleDefV),
    SetCmd(SetCmdV),
    Invocation(ActionV),
}

impl View for Transform {
    type V = TransformV;

    open spec fn view(&self) -> TransformV {
        TransformV { op: self.op@, args: strings_of(self.args@) }
    }
}

impl View for Action {
    type V = ActionV;

    open spec fn view(&self) -> ActionV {
        ActionV {
            transforms: self.transforms@.map_values(|t: Transform| t@),
            count: self.count,
            target: self.target@,
        }
    }
}

impl View for Invocation {
    type V = ActionV;

    open spec fn view(&self) -> ActionV {
        ActionV {
            transforms: self.transforms@.map_values(|t: Transform| t@),
            count: self.count,
            target: self.target@,
        }
    }
}

impl View for SetCmd {
    type V = SetCmdV;

    open spec fn view(&self) -> SetCmdV {
        SetCmdV { key: self.key@, value: self.value@ }
    }
}

impl View for RuleDef {
    type V = RuleDefV;

    open spec fn view(&self) -> RuleDefV {
        RuleDefV {
            name: self.name@,
            weight: opt_view(self.weight),
            max_depth: self.max_depth,
            retirement: opt_view(self.retirement),
            body: self.body@.map_values(|a: Action| a@),
        }
    }
}

impl View for Statement {
    type V = StatementV;

    open spec fn view(&self) -> StatementV {
        match self {
            Statement::RuleDef(d) => StatementV::RuleDef(d@),
            Statement::SetCmd(c) => StatementV::SetCmd(c@),
            Statement::Invocation(i) => StatementV::Invocation(i@),
        }
    }
}

impl View for Script {
    type V = Seq<StatementV>;

    open spec fn view(&self) -> Seq<StatementV> {
        self.statements@.map_values(|s: Statement| s@)
    }
}

// ── Copies ─────────────────────────────────────────────────────────────────

/// A copy of a list of transforms.
pub fn copy_transforms(v: &Vec<Transform>) -> (r: Vec<Transform>)
    ensures
        r@.map_values(|t: Transform| t@) == v@.map_values(|t: Transform| t@),
{
    let mut r: Vec<Transform> = Vec::new();
    for i in 0..v.len()
        invariant
            r@.len() == i,
            forall|j: int| 0 <= j < i ==> (#[trigger] r@[j])@ == v@[j]@,
    {
        let c = v[i].clone();
        r.push(c);
    }
    assert(r@.map_values(|t: Transform| t@) =~= v@.map_values(|t: Transform| t@));
    r
}

/// A copy of a list of actions.
pub fn copy_actions(v: &Vec<Action>) -> (r: Vec<Action>)
    ensures
        r@.map_values(|a: Action| a@) == v@.map_values(|a: Action| a@),
{
    let mut r: Vec<Action> = Vec::new();
    for i in 0..v.len()
        invariant
            r@.len() == i,
            forall|j: int| 0 <= j < i ==> (#[trigger] r@[j])@ == v@[j]@,
    {
        let c = v[i].clone();
        r.push(c);
    }
    assert(r@.map_values(|a: Action| a@) =~= v@.map_values(|a: Action| a@));
    r
}

impl Clone for Transform {
    fn clone(&self) -> (r: Self)
        ensures
            r@ == self@,
    {
        Transform { op: self.op.clone(), args: copy_strings(&self.args) }
    }
}

impl Clone for Action {
    fn clone(&self) -> (r: Self)
        ensures
            r@ == self@,
    {
        Action {
            transforms: copy_transforms(&self.transforms),
            count: self.count,
            target: self.target.clone(),
        }
    }
}

impl Clone for Invocation {
    fn clone(&self) -> (r: Self)
        ensures
            r@ == self@,
    {
        Invocation {
            transforms: copy_transforms(&self.transforms),
            count: self.count,
            target: self.target.clone(),
        }
    }
}

impl Clone for SetCmd {
    fn clone(&self) -> (r: Self)
        ensures
            r@ == self@,
    {
        SetCmd { key: self.key.clone(), value: self.value.clone() }
    }
}

impl Clone for RuleDef {
    fn clone(&self) -> (r: Self)
        ensures
            r@ == self@,
    {
        RuleDef {
            name: self.name.clone(),
            weight: copy_opt_string(&self.weight),
            max_depth: self.max_depth,
            retirement: copy_opt_string(&self.retirement),
            body: copy_actions(&self.body),
        }
    }
}

impl Invocation {
    /// The invocation as an action with the same transforms, count and target.
    pub fn to_action(&self) -> (a: Action)
        ensures
            a@ == self@,
    {
        Action {
            transforms: copy_transforms(&self.transforms),
            count: self.count,
            target: self.target.clone(),
        }
    }
}

} // verus!
