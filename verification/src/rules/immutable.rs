//! The immutable rule: a state variable never assigned outside a
//! constructor could be declared immutable or constant and inlined into the
//! bytecode, sparing storage loads.  The walk records declarations and
//! assignments; at the end of the tree, every state variable without an
//! assignment outside a constructor is flagged at its declaration.

use crate::ast::{FunctionKind, Node, NodeKind, Src};
use crate::findings::{FindingKey, Severity, SpecRawFinding};
use crate::rules::{
    catalog_len, push_finding, rule_name_spec, spec_push, Rule, RuleCtx, SpecCtx,
};
use crate::strutil::str_eq;
use vstd::prelude::*;

verus! {

/// Is this name among the recorded ones?
pub open spec fn spec_contains_name(names: Seq<Seq<char>>, n: Seq<char>) -> bool {
    exists|i: int| 0 <= i < names.len() && names[i] == n
}

/// The findings the rule emits at the end of a walk: one per recorded state
/// variable that no assignment outside a constructor ever touched, at its
/// declaration's range, in declaration order.
pub open spec fn spec_unassigned_findings(
    svs: Seq<(Seq<char>, Src)>,
    assigned: Seq<Seq<char>>,
) -> Seq<SpecRawFinding>
    decreases svs.len(),
{
    if svs.len() == 0 {
        Seq::empty()
    } else {
        spec_unassigned_findings(svs.drop_last(), assigned) + if !spec_contains_name(
            assigned,
            svs.last().0,
        ) {
            seq![
                SpecRawFinding {
                    name: rule_name_spec(Rule::Immutable),
                    code: 0,
                    src: Some(svs.last().1),
                },
            ]
        } else {
            Seq::empty()
        }
    }
}

/// What the immutable rule does before a node's children.
pub open spec fn pre_spec(node: Node, s: SpecCtx) -> SpecCtx {
    match node.kind {
        NodeKind::VariableDeclaration(vd) => {
            if vd.state_variable {
                SpecCtx { state_vars: s.state_vars.push((vd.name@, node.src)), ..s }
            } else {
                s
            }
        },
        NodeKind::FunctionDefinition(fd) => {
            if fd.kind == FunctionKind::Constructor {
                SpecCtx { in_constructor: true, ..s }
            } else {
                s
            }
        },
        NodeKind::Assignment => {
            if node.children@.len() > 0 && node.children@[0].kind is Identifier
                && !s.in_constructor {
                SpecCtx {
                    assigned: s.assigned.push(
                        node.children@[0].kind->Identifier_0.name@,
                    ),
                    ..s
                }
            } else {
                s
            }
        },
        _ => s,
    }
}

/// What the immutable rule does after a node's children: leaving a function
/// definition leaves its constructor, and leaving the root emits the
/// findings.
pub open spec fn post_spec(node: Node, s: SpecCtx) -> SpecCtx {
    match node.kind {
        NodeKind::FunctionDefinition(_) => SpecCtx { in_constructor: false, ..s },
        NodeKind::SourceUnit(_) => SpecCtx {
            findings: s.findings + spec_unassigned_findings(s.state_vars, s.assigned),
            ..s
        },
        _ => s,
    }
}

/// Is this name among the recorded assigned names?
fn contains_string(names: &Vec<String>, n: &str) -> (r: bool)
    ensures
        r == spec_contains_name(crate::rules::name_views(names@), n@),
{
    let ghost views = crate::rules::name_views(names@);
    let m = names.len();
    let mut i: usize = 0;
    while i < m
        invariant
            i <= m,
            m == names@.len(),
            views == crate::rules::name_views(names@),
            forall|k: int| 0 <= k < i ==> views[k] != n@,
        decreases m - i,
    {
        if str_eq(names[i].as_str(), n) {
            proof {
                assert(views[i as int] == n@);
            }
            return true;
        }
        i += 1;
    }
    false
}

/// The immutable rule's pre hook; it always lets the walk continue.
pub fn pre(node: &Node, ctx: &mut RuleCtx) -> (descend: bool)
    ensures
        final(ctx)@ == pre_spec(*node, old(ctx)@),
        descend,
{
    match &node.kind {
        NodeKind::VariableDeclaration(vd) => {
            if vd.state_variable {
                let name = vd.name.clone();
                ctx.state_vars.push((name, node.src));
                proof {
                    assert(crate::rules::sv_views(ctx.state_vars@) =~= crate::rules::sv_views(
                        old(ctx).state_vars@,
                    ).push((vd.name@, node.src)));
                }
            }
            true
        },
        NodeKind::FunctionDefinition(fd) => {
            if fd.kind == FunctionKind::Constructor {
                ctx.in_constructor = true;
            }
            true
        },
        NodeKind::Assignment => {
            if node.children.len() > 0 && !ctx.in_constructor {
                if let NodeKind::Identifier(id) = &node.children[0].kind {
                    let name = id.name.clone();
                    ctx.assigned.push(name);
                    proof {
                        assert(crate::rules::name_views(ctx.assigned@)
                            =~= crate::rules::name_views(old(ctx).assigned@).push(id.name@));
                    }
                }
            }
            true
        },
        _ => true,
    }
}

/// The immutable rule's post hook.
pub fn post(node: &Node, ctx: &mut RuleCtx)
    ensures
        final(ctx)@ == post_spec(*node, old(ctx)@),
{
    match &node.kind {
        NodeKind::FunctionDefinition(_) => {
            ctx.in_constructor = false;
        },
        NodeKind::SourceUnit(_) => {
            let n = ctx.state_vars.len();
            let mut i: usize = 0;
            proof {
                assert(ctx@.state_vars.take(0) =~= Seq::<(Seq<char>, Src)>::empty());
                assert(ctx@.findings =~= old(ctx)@.findings + spec_unassigned_findings(
                    ctx@.state_vars.take(0),
                    ctx@.assigned,
                ));
            }
            while i < n
                invariant
                    i <= n,
                    n == ctx@.state_vars.len(),
                    ctx@.state_vars == old(ctx)@.state_vars,
                    ctx@.assigned == old(ctx)@.assigned,
                    ctx@.in_constructor == old(ctx)@.in_constructor,
                    ctx@.vars_by_id == old(ctx)@.vars_by_id,
                    ctx@.text == old(ctx)@.text,
                    ctx@.name == old(ctx)@.name,
                    ctx@.version == old(ctx)@.version,
                    ctx@.findings == old(ctx)@.findings + spec_unassigned_findings(
                        ctx@.state_vars.take(i as int),
                        ctx@.assigned,
                    ),
                decreases n - i,
            {
                let ghost svs = ctx@.state_vars;
                proof {
                    assert(svs.take(i + 1).drop_last() =~= svs.take(i as int));
                    assert(svs.take(i + 1).last() == svs[i as int]);
                }
                let nm = ctx.state_vars[i].0.clone();
                let sv_src = ctx.state_vars[i].1;
                proof {
                    assert(nm@ == svs[i as int].0);
                    assert(sv_src == svs[i as int].1);
                }
                let found = contains_string(&ctx.assigned, nm.as_str());
                if !found {
                    push_finding(&Rule::Immutable, ctx, 0, Some(sv_src));
                }
                proof {
                    assert(ctx@.findings =~= old(ctx)@.findings + spec_unassigned_findings(
                        ctx@.state_vars.take(i + 1),
                        ctx@.assigned,
                    ));
                }
                i += 1;
            }
            proof {
                assert(ctx@.state_vars.take(n as int) =~= ctx@.state_vars);
            }
        },
        _ => {},
    }
}

/// The immutable rule's catalog.
pub fn catalog() -> (r: Vec<(u64, FindingKey)>)
    ensures
        r@.len() == catalog_len(Rule::Immutable),
        forall|i: int| 0 <= i < r@.len() ==> (#[trigger] r@[i]).0 == i,
        r@[0].1.severity == Severity::Gas,
{
    let mut r: Vec<(u64, FindingKey)> = Vec::new();
    r.push(
        (
            0,
            FindingKey {
                summary: String::from_str(
                    "State variables that never change should be directly inlined in the bytecode",
                ),
                description: String::from_str(
                    "When state variables are guaranteed to never change, they should be inlined in the bytecode of the contract by declaring them as immutables or constants to avoid paying the upfront cost of SLOAD which are expensive, mainly when the slot is cold.",
                ),
                severity: Severity::Gas,
            },
        ),
    );
    r
}


/// The end-of-walk findings all carry the rule's name and its only code.
pub proof fn lemma_unassigned_ok(svs: Seq<(Seq<char>, Src)>, assigned: Seq<Seq<char>>)
    ensures
        forall|i: int|
            0 <= i < spec_unassigned_findings(svs, assigned).len() ==> (
            #[trigger] spec_unassigned_findings(svs, assigned)[i]).code < catalog_len(
                Rule::Immutable,
            ) && spec_unassigned_findings(svs, assigned)[i].name == rule_name_spec(
                Rule::Immutable,
            ),
    decreases svs.len(),
{
    if svs.len() > 0 {
        lemma_unassigned_ok(svs.drop_last(), assigned);
        let whole = spec_unassigned_findings(svs, assigned);
        let pre = spec_unassigned_findings(svs.drop_last(), assigned);
        assert forall|i: int|
            0 <= i < whole.len() implies (#[trigger] whole[i]).code < catalog_len(
            Rule::Immutable,
        ) && whole[i].name == rule_name_spec(Rule::Immutable) by {
            if i < pre.len() {
                assert(whole[i] == pre[i]);
            }
        }
    }
}

} // verus!
