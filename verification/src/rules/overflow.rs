//! The overflow rule: before compiler 0.8, arithmetic in function bodies
//! wraps silently, so every implemented function of such a unit is flagged.

use crate::ast::{FunctionKind, Node, NodeKind};
use crate::findings::{FindingKey, Severity};
use crate::rules::{catalog_len, push_finding, spec_push, Rule, RuleCtx, SpecCtx};
use vstd::prelude::*;

verus! {

/// What the overflow rule does at a node: an implemented plain function of
/// a unit built before 0.8 gets one finding, with no particular range.
pub open spec fn pre_spec(node: Node, s: SpecCtx) -> SpecCtx {
    match node.kind {
        NodeKind::FunctionDefinition(fd) => {
            if fd.kind == FunctionKind::Function && fd.implemented && s.version.minor < 8 {
                spec_push(Rule::Overflow, s, 0, None)
            } else {
                s
            }
        },
        _ => s,
    }
}

/// The overflow rule's hook; it always lets the walk continue.
pub fn pre(node: &Node, ctx: &mut RuleCtx) -> (descend: bool)
    ensures
        final(ctx)@ == pre_spec(*node, old(ctx)@),
        descend,
{
    match &node.kind {
        NodeKind::FunctionDefinition(fd) => {
            if fd.kind == FunctionKind::Function && fd.implemented && ctx.info.version.minor < 8 {
                push_finding(&Rule::Overflow, ctx, 0, None);
            }
            true
        },
        _ => true,
    }
}

/// The overflow rule's catalog.
pub fn catalog() -> (r: Vec<(u64, FindingKey)>)
    ensures
        r@.len() == catalog_len(Rule::Overflow),
        forall|i: int| 0 <= i < r@.len() ==> (#[trigger] r@[i]).0 == i,
        r@[0].1.severity == Severity::Low,
{
    let mut r: Vec<(u64, FindingKey)> = Vec::new();
    r.push(
        (
            0,
            FindingKey {
                summary: String::from_str("Possible overflow"),
                description: String::from_str(
                    "the function may overflow, please bump version > 0.8.0",
                ),
                severity: Severity::Low,
            },
        ),
    );
    r
}

} // verus!
