//! What applying a custom rule queues: one branch per iteration of each
//! action of its body, in order, each naming its target rule, the recursion
//! budgets it carries, and how many times it applies its action's
//! transformations to the parent's state (the geometry and colour of a state
//! are the caller's). A rule whose budget is spent queues only its
//! retirement rule.

use vstd::prelude::*;

use crate::ast::{Action, ActionV, RuleDefV};
use crate::eval::{depth_step, depth_step_spec, budget_after, DepthBudgets, DepthStep};
use crate::rule_graph::CustomRuleNode;

verus! {

/// A queued branch.
#[derive(Debug)]
pub struct Branch {
    /// The rule the branch applies next.
    pub target: String,
    /// How many times the branch applies its action's transformations to the
    /// parent's state.
    pub repeats: u32,
    /// The recursion budgets the branch carries.
    pub budgets: DepthBudgets,
}

pub struct BranchV {
    pub target: Seq<char>,
    pub repeats: u32,
    pub budgets: Map<Seq<char>, i32>,
}

impl View for Branch {
    type V = BranchV;

    open spec fn view(&self) -> BranchV {
        BranchV { target: self.target@, repeats: self.repeats, budgets: self.budgets@ }
    }
}

/// The views of a list of branches.
pub open spec fn branches_view(v: Seq<Branch>) -> Seq<BranchV> {
    v.map_values(|b: Branch| b@)
}

/// How many times each branch of an action applies the action's
/// transformations: a bare rule name queues one branch that applies none; a
/// block without a count is one iteration; `n * { .. }` queues iterations
/// `1..=n`, and at least the first.
pub open spec fn iterations(a: ActionV) -> Seq<u32> {
    match a.count {
        None => if a.transforms.len() == 0 {
            seq![0u32]
        } else {
            seq![1u32]
        },
        Some(n) => Seq::new(if n == 0 { 1 } else { n as nat }, |k: int| (k + 1) as u32),
    }
}

/// The budgets passed on to the branches of a rule's body: the rule's own
/// spent budget, where it limits its depth, over those of the visiting state.
pub open spec fn passed_budgets(b: Map<Seq<char>, i32>, calling: Option<(Seq<char>, i32)>) -> Map<
    Seq<char>,
    i32,
> {
    match calling {
        Some((r, d)) => b.insert(r, d),
        None => b,
    }
}

/// The branches of one action.
pub open spec fn action_branches(
    a: ActionV,
    b: Map<Seq<char>, i32>,
    calling: Option<(Seq<char>, i32)>,
) -> Seq<BranchV> {
    iterations(a).map_values(
        |k: u32| BranchV { target: a.target, repeats: k, budgets: passed_budgets(b, calling) },
    )
}

/// The branches of the actions of a body, action by action.
pub open spec fn body_branches(
    body: Seq<ActionV>,
    b: Map<Seq<char>, i32>,
    calling: Option<(Seq<char>, i32)>,
) -> Seq<BranchV>
    decreases body.len(),
{
    if body.len() == 0 {
        seq![]
    } else {
        body_branches(body.drop_last(), b, calling) + action_branches(body.last(), b, calling)
    }
}

/// The budget that the budgets `b` hold for rule `name`, if any.
pub open spec fn held(b: Map<Seq<char>, i32>, name: Seq<char>) -> Option<i32> {
    if b.contains_key(name) {
        Some(b[name])
    } else {
        None
    }
}

/// The branches that applying rule `r` to a state with budgets `b` queues.
pub open spec fn rule_branches(r: RuleDefV, b: Map<Seq<char>, i32>) -> Seq<BranchV> {
    match depth_step_spec(r.max_depth, held(b, r.name)) {
        DepthStep::Enter(d) => body_branches(
            r.body,
            b,
            match d {
                Some(d) => Some((r.name, d)),
                None => None,
            },
        ),
        DepthStep::Retire(m) => match r.retirement {
            Some(t) => seq![BranchV { target: t, repeats: 0, budgets: b.insert(r.name, m) }],
            None => seq![],
        },
    }
}

/// An action queues one branch per iteration, each naming the action's
/// target and carrying the visiting budgets with the calling rule's spent
/// budget over them: a bare name queues one branch that applies no
/// transformation, a block without a count one that applies it once, and
/// `n * { .. }` queues `max(n, 1)` branches, the `k`-th applying it `k`
/// times.
pub proof fn lemma_action_branches(
    a: ActionV,
    b: Map<Seq<char>, i32>,
    calling: Option<(Seq<char>, i32)>,
)
    ensures
        action_branches(a, b, calling).len() == match a.count {
            None => 1,
            Some(n) => if n == 0 {
                1
            } else {
                n as int
            },
        },
        forall|k: int|
            0 <= k < action_branches(a, b, calling).len() ==> {
                &&& (#[trigger] action_branches(a, b, calling)[k]).target == a.target
                &&& action_branches(a, b, calling)[k].repeats == if a.count is None
                    && a.transforms.len() == 0 {
                    0
                } else {
                    k + 1
                }
                &&& action_branches(a, b, calling)[k].budgets == match calling {
                    Some((r, d)) => b.insert(r, d),
                    None => b,
                }
            },
{
}

/// A rule without a depth limit runs its body on every visit and passes the
/// visiting budgets on unchanged.
pub proof fn lemma_unlimited_rule(r: RuleDefV, b: Map<Seq<char>, i32>)
    requires
        r.max_depth is None,
    ensures
        rule_branches(r, b) == body_branches(r.body, b, None),
{
}

/// The calling rule's spent budget as a view.
pub open spec fn calling_view(calling: Option<(&str, i32)>) -> Option<(Seq<char>, i32)> {
    match calling {
        Some((r, d)) => Some((r@, d)),
        None => None,
    }
}

fn passed_on(budgets: &DepthBudgets, calling: Option<(&str, i32)>) -> (r: DepthBudgets)
    ensures
        r@ == passed_budgets(budgets@, calling_view(calling)),
{
    let mut r = budgets.clone();
    if let Some((name, d)) = calling {
        r.insert(name, d);
    }
    r
}

/// Queue the branches of action `a`, visited by a state with `budgets`, after
/// those already in `out`.
pub fn push_action_branches(
    a: &Action,
    budgets: &DepthBudgets,
    calling: Option<(&str, i32)>,
    out: &mut Vec<Branch>,
)
    ensures
        branches_view(final(out)@) == branches_view(old(out)@) + action_branches(
            a@,
            budgets@,
            calling_view(calling),
        ),
{
    let ghost before = branches_view(out@);
    let ghost its = iterations(a@);
    let n: u32 = match a.count {
        None => 1,
        Some(c) => if c == 0 {
            1
        } else {
            c
        },
    };
    let bare = a.count.is_none() && a.transforms.len() == 0;
    let mut k: u32 = 0;
    while k < n
        invariant
            its == iterations(a@),
            its.len() == n,
            k <= n,
            bare == (a@.count is None && a@.transforms.len() == 0),
            forall|j: int| 0 <= j < n ==> its[j] == if bare { 0u32 } else { (j + 1) as u32 },
            branches_view(out@) == before + action_branches(a@, budgets@, calling_view(calling)).take(
                k as int,
            ),
        decreases n - k,
    {
        let ghost prev = out@;
        let repeats = if bare { 0 } else { k + 1 };
        let b = Branch { target: a.target.clone(), repeats, budgets: passed_on(budgets, calling) };
        out.push(b);
        assert(branches_view(out@) =~= branches_view(prev).push(b@));
        assert(action_branches(a@, budgets@, calling_view(calling)).take(k + 1) =~= action_branches(
            a@,
            budgets@,
            calling_view(calling),
        ).take(k as int).push(b@));
        k = k + 1;
    }
    assert(action_branches(a@, budgets@, calling_view(calling)).take(n as int) =~= action_branches(
        a@,
        budgets@,
        calling_view(calling),
    ));
}

/// The branches that applying `rule` to a state with `budgets` queues.
pub fn apply_custom(rule: &CustomRuleNode, budgets: &DepthBudgets) -> (r: Vec<Branch>)
    requires
        !(rule.max_depth == Some(0x8000_0000u32) && !budgets@.contains_key(rule.name@)),
    ensures
        branches_view(r@) == rule_branches(rule@, budgets@),
{
    let mut out: Vec<Branch> = Vec::new();
    match depth_step(rule.max_depth, budgets.get(rule.name.as_str())) {
        DepthStep::Enter(d) => {
            let calling = match d {
                Some(d) => Some((rule.name.as_str(), d)),
                None => None,
            };
            let ghost body = rule@.body;
            let ghost cv = calling_view(calling);
            assert(branches_view(out@) =~= body_branches(body.take(0), budgets@, cv));
            for i in 0..rule.body.len()
                invariant
                    body == rule@.body,
                    cv == calling_view(calling),
                    branches_view(out@) == body_branches(body.take(i as int), budgets@, cv),
            {
                push_action_branches(&rule.body[i], budgets, calling, &mut out);
                assert(body.take(i + 1).drop_last() =~= body.take(i as int));
            }
            assert(body.take(rule.body.len() as int) =~= body);
        },
        DepthStep::Retire(m) => {
            if let Some(t) = &rule.retirement {
                let mut b = budgets.clone();
                b.insert(rule.name.as_str(), m);
                out.push(Branch { target: t.clone(), repeats: 0, budgets: b });
                assert(branches_view(out@) =~= rule_branches(rule@, budgets@));
            } else {
                assert(branches_view(out@) =~= rule_branches(rule@, budgets@));
            }
        },
    }
    out
}

/// Along a chain of applications of a rule with `maxdepth m`, the body runs
/// exactly `m` times: after `k < m` applications every branch the body queues
/// carries the rule's budget for `k + 1` applications, and after `m` the rule
/// queues only its retirement rule, with the budget reset to `m`.
pub proof fn lemma_body_runs_max_depth_times(r: RuleDefV, b: Map<Seq<char>, i32>, k: nat)
    requires
        r.max_depth is Some,
        0 < r.max_depth->0 < 0x8000_0000,
        k <= r.max_depth->0,
        held(b, r.name) == budget_after(r.max_depth->0, k),
    ensures
        k < r.max_depth->0 ==> forall|i: int|
            0 <= i < rule_branches(r, b).len() ==> #[trigger] held(
                rule_branches(r, b)[i].budgets,
                r.name,
            ) == budget_after(r.max_depth->0, k + 1),
        k == r.max_depth->0 ==> rule_branches(r, b) == match r.retirement {
            Some(t) => seq![
                BranchV { target: t, repeats: 0, budgets: b.insert(r.name, r.max_depth->0 as i32) },
            ],
            None => Seq::<BranchV>::empty(),
        },
{
    let m = r.max_depth->0;
    crate::eval::lemma_max_depth_applications(m, k);
    if k < m {
        let d = budget_after(m, k + 1)->0;
        assert(budget_after(m, k + 1) == Some(d));
        assert(depth_step_spec(r.max_depth, held(b, r.name)) == DepthStep::Enter(Some(d)));
        assert(rule_branches(r, b) == body_branches(r.body, b, Some((r.name, d))));
        lemma_body_budgets(r.body, b, r.name, d);
    }
}

/// Every branch of a body passes on the calling rule's spent budget.
proof fn lemma_body_budgets(body: Seq<ActionV>, b: Map<Seq<char>, i32>, name: Seq<char>, d: i32)
    ensures
        forall|i: int|
            0 <= i < body_branches(body, b, Some((name, d))).len() ==> #[trigger] held(
                body_branches(body, b, Some((name, d)))[i].budgets,
                name,
            ) == Some(d),
    decreases body.len(),
{
    if body.len() > 0 {
        lemma_body_budgets(body.drop_last(), b, name, d);
        let left = body_branches(body.drop_last(), b, Some((name, d)));
        let right = action_branches(body.last(), b, Some((name, d)));
        assert forall|i: int| 0 <= i < (left + right).len() implies #[trigger] held(
            (left + right)[i].budgets,
            name,
        ) == Some(d) by {
            if i >= left.len() {
                assert((left + right)[i] == right[i - left.len()]);
                assert(right[i - left.len()].budgets == b.insert(name, d));
                assert(b.insert(name, d).contains_key(name));
            } else {
                assert((left + right)[i] == left[i]);
                assert(held(left[i].budgets, name) == Some(d));
            }
        }
        assert(body_branches(body, b, Some((name, d))) == left + right);
    }
}

} // verus!
