//! The deprecated rule: `payable.transfer()` and `payable.send()` forward a
//! fixed gas stipend and can leave a contract unable to receive funds, so
//! any use of either is flagged.

use crate::ast::{Node, NodeKind};
use crate::findings::{FindingKey, Severity};
use crate::rules::{catalog_len, push_finding, spec_push, Rule, RuleCtx, SpecCtx};
use crate::strutil::str_eq;
use vstd::prelude::*;

verus! {

/// The two type identifiers the compiler gives those members.
pub open spec fn spec_deprecated_transfer(ti: Seq<char>) -> bool {
    ||| ti == "t_function_send_nonpayable$_t_uint256_$returns$_t_bool_$"@
    ||| ti == "t_function_transfer_nonpayable$_t_uint256_$returns$__$"@
}

/// What the deprecated rule does at a node.
pub open spec fn pre_spec(node: Node, s: SpecCtx) -> SpecCtx {
    match node.kind {
        NodeKind::MemberAccess(ma) => {
            if ma.type_descriptions.type_identifier is Some && spec_deprecated_transfer(
                ma.type_descriptions.type_identifier->0@,
            ) {
                spec_push(Rule::Deprecated, s, 0, Some(node.src))
            } else {
                s
            }
        },
        _ => s,
    }
}

/// The rule stops at member accesses: nothing below one interests it.
pub open spec fn descends(node: Node) -> bool {
    !(node.kind is MemberAccess)
}

/// The deprecated rule's hook.
pub fn pre(node: &Node, ctx: &mut RuleCtx) -> (descend: bool)
    ensures
        final(ctx)@ == pre_spec(*node, old(ctx)@),
        descend == descends(*node),
{
    match &node.kind {
        NodeKind::MemberAccess(ma) => {
            if let Some(ti) = &ma.type_descriptions.type_identifier {
                if str_eq(ti.as_str(), "t_function_send_nonpayable$_t_uint256_$returns$_t_bool_$")
                    || str_eq(
                    ti.as_str(),
                    "t_function_transfer_nonpayable$_t_uint256_$returns$__$",
                ) {
                    push_finding(&Rule::Deprecated, ctx, 0, Some(node.src));
                }
            }
            false
        },
        _ => true,
    }
}

/// The deprecated rule's catalog.
pub fn catalog() -> (r: Vec<(u64, FindingKey)>)
    ensures
        r@.len() == catalog_len(Rule::Deprecated),
        forall|i: int| 0 <= i < r@.len() ==> (#[trigger] r@[i]).0 == i,
        r@[0].1.severity == Severity::Low,
{
    let mut r: Vec<(u64, FindingKey)> = Vec::new();
    r.push(
        (
            0,
            FindingKey {
                summary: String::from_str("Don't use payable.transfer()/payable.send()"),
                description: String::from_str(
                    "These functions should never be used because they may cause a DOS state",
                ),
                severity: Severity::Low,
            },
        ),
    );
    r
}

} // verus!
