//! The loops rule: a for loop whose bound re-reads a mutable storage
//! variable pays a storage load on every iteration; copying it to the stack
//! first costs one.

use crate::ast::{Mutability, Node, NodeKind};
use crate::findings::{FindingKey, Severity};
use crate::rules::{catalog_len, push_finding, spec_push, Rule, RuleCtx, SpecCtx, VarInfo};
use vstd::prelude::*;

verus! {

/// The flags recorded for a declaration id; a later declaration with the
/// same id replaces an earlier one.
pub open spec fn spec_lookup_var(s: Seq<(u64, VarInfo)>, id: u64) -> Option<VarInfo>
    decreases s.len(),
{
    if s.len() == 0 {
        None
    } else if s.last().0 == id {
        Some(s.last().1)
    } else {
        spec_lookup_var(s.drop_last(), id)
    }
}

/// The loop condition: the only bare expression among a for statement's
/// children.
pub open spec fn spec_find_condition(children: Seq<Node>) -> Option<Node>
    decreases children.len(),
{
    if children.len() == 0 {
        None
    } else if children.first().kind is BinaryOperation {
        Some(children.first())
    } else {
        spec_find_condition(children.drop_first())
    }
}

/// Does this for statement's condition compare against a mutable storage
/// variable on its right-hand side?
pub open spec fn spec_storage_bound(node: Node, vars: Seq<(u64, VarInfo)>) -> bool {
    &&& spec_find_condition(node.children@) is Some
    &&& spec_find_condition(node.children@)->0.children@.len() == 2
    &&& spec_find_condition(node.children@)->0.children@[1].kind is Identifier
    &&& spec_find_condition(
        node.children@,
    )->0.children@[1].kind->Identifier_0.referenced_declaration is Some
    &&& {
        let rid = spec_find_condition(
            node.children@,
        )->0.children@[1].kind->Identifier_0.referenced_declaration->0;
        &&& spec_lookup_var(vars, rid) is Some
        &&& spec_lookup_var(vars, rid)->0.mutability == Mutability::Mutable
        &&& spec_lookup_var(vars, rid)->0.state_variable
    }
}

/// What the loops rule does at a node.
pub open spec fn pre_spec(node: Node, s: SpecCtx) -> SpecCtx {
    match node.kind {
        NodeKind::VariableDeclaration(vd) => SpecCtx {
            vars_by_id: s.vars_by_id.push(
                (
                    vd.id,
                    VarInfo { state_variable: vd.state_variable, mutability: vd.mutability },
                ),
            ),
            ..s
        },
        NodeKind::ForStatement => {
            if spec_storage_bound(node, s.vars_by_id) {
                spec_push(Rule::Loops, s, 0, Some(node.src))
            } else {
                s
            }
        },
        _ => s,
    }
}

/// The rule records declarations and reads loop heads; it walks into
/// neither.
pub open spec fn descends(node: Node) -> bool {
    !(node.kind is VariableDeclaration) && !(node.kind is ForStatement)
}

fn lookup_var(vars: &Vec<(u64, VarInfo)>, id: u64) -> (r: Option<VarInfo>)
    ensures
        r == spec_lookup_var(vars@, id),
{
    let n = vars.len();
    let mut i: usize = n;
    proof {
        assert(vars@.take(n as int) =~= vars@);
    }
    while i > 0
        invariant
            i <= n,
            n == vars@.len(),
            spec_lookup_var(vars@, id) == spec_lookup_var(vars@.take(i as int), id),
        decreases i,
    {
        i -= 1;
        proof {
            assert(vars@.take(i + 1).drop_last() =~= vars@.take(i as int));
            assert(vars@.take(i + 1).last() == vars@[i as int]);
        }
        if vars[i].0 == id {
            return Some(vars[i].1);
        }
    }
    proof {
        assert(vars@.take(0) =~= Seq::<(u64, VarInfo)>::empty());
    }
    None
}

fn find_condition<'a>(children: &'a Vec<Node>) -> (r: Option<&'a Node>)
    ensures
        r is Some <==> spec_find_condition(children@) is Some,
        r is Some ==> *r->0 == spec_find_condition(children@)->0,
{
    let n = children.len();
    let mut i: usize = 0;
    proof {
        assert(children@.skip(0) =~= children@);
    }
    while i < n
        invariant
            i <= n,
            n == children@.len(),
            spec_find_condition(children@) == spec_find_condition(children@.skip(i as int)),
        decreases n - i,
    {
        proof {
            assert(children@.skip(i as int).first() == children@[i as int]);
            assert(children@.skip(i as int).drop_first() =~= children@.skip(i + 1));
        }
        if matches!(&children[i].kind, NodeKind::BinaryOperation(_)) {
            return Some(&children[i]);
        }
        i += 1;
    }
    proof {
        assert(children@.skip(n as int) =~= Seq::<Node>::empty());
    }
    None
}

/// The loops rule's hook.
pub fn pre(node: &Node, ctx: &mut RuleCtx) -> (descend: bool)
    ensures
        final(ctx)@ == pre_spec(*node, old(ctx)@),
        descend == descends(*node),
{
    match &node.kind {
        NodeKind::VariableDeclaration(vd) => {
            ctx.vars_by_id.push(
                (
                    vd.id,
                    VarInfo { state_variable: vd.state_variable, mutability: vd.mutability },
                ),
            );
            false
        },
        NodeKind::ForStatement => {
            if let Some(cond) = find_condition(&node.children) {
                if cond.children.len() == 2 {
                    if let NodeKind::Identifier(id) = &cond.children[1].kind {
                        if let Some(rid) = id.referenced_declaration {
                            if let Some(vi) = lookup_var(&ctx.vars_by_id, rid) {
                                if vi.mutability == Mutability::Mutable && vi.state_variable {
                                    push_finding(&Rule::Loops, ctx, 0, Some(node.src));
                                }
                            }
                        }
                    }
                }
            }
            false
        },
        _ => true,
    }
}

/// The loops rule's catalog.
pub fn catalog() -> (r: Vec<(u64, FindingKey)>)
    ensures
        r@.len() == catalog_len(Rule::Loops),
        forall|i: int| 0 <= i < r@.len() ==> (#[trigger] r@[i]).0 == i,
        r@[0].1.severity == Severity::Gas,
{
    let mut r: Vec<(u64, FindingKey)> = Vec::new();
    r.push(
        (
            0,
            FindingKey {
                summary: String::from_str("Local variable assignment"),
                description: String::from_str(
                    "Catch frequently used storage variables in memory/stack, converting multiple SLOAD into 1 SLOAD.",
                ),
                severity: Severity::Gas,
            },
        ),
    );
    r
}

} // verus!
