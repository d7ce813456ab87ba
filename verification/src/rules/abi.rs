//! The abi rule: since 0.8.11, `abi.encodeCall` offers type-safe encoding,
//! so calls of `abi.encodeWithSignature` and `abi.encodeWithSelector` are
//! flagged.

use crate::ast::{Node, NodeKind};
use crate::findings::{FindingKey, Severity};
use crate::rules::{catalog_len, push_finding, spec_push, Rule, RuleCtx, SpecCtx};
use crate::strutil::str_eq;
use vstd::prelude::*;

verus! {

/// What the abi rule does at a node: a member access on the `abi` builtin
/// through one of the unchecked encoders gets a finding.
pub open spec fn pre_spec(node: Node, s: SpecCtx) -> SpecCtx {
    match node.kind {
        NodeKind::MemberAccess(ma) => {
            if node.children@.len() > 0 && node.children@[0].kind is Identifier
                && node.children@[0].kind->Identifier_0.type_descriptions.type_string is Some
                && node.children@[0].kind->Identifier_0.type_descriptions.type_string->0@
                == "abi"@ && (ma.member_name@ == "encodeWithSignature"@ || ma.member_name@
                == "encodeWithSelector"@) {
                spec_push(Rule::Abi, s, 0, Some(node.src))
            } else {
                s
            }
        },
        _ => s,
    }
}

/// The abi rule's hook; it always lets the walk continue.
pub fn pre(node: &Node, ctx: &mut RuleCtx) -> (descend: bool)
    ensures
        final(ctx)@ == pre_spec(*node, old(ctx)@),
        descend,
{
    match &node.kind {
        NodeKind::MemberAccess(ma) => {
            if node.children.len() > 0 {
                if let NodeKind::Identifier(id) = &node.children[0].kind {
                    if let Some(ts) = &id.type_descriptions.type_string {
                        if str_eq(ts.as_str(), "abi") && (str_eq(
                            ma.member_name.as_str(),
                            "encodeWithSignature",
                        ) || str_eq(ma.member_name.as_str(), "encodeWithSelector")) {
                            push_finding(&Rule::Abi, ctx, 0, Some(node.src));
                        }
                    }
                }
            }
            true
        },
        _ => true,
    }
}

/// The abi rule's catalog.
pub fn catalog() -> (r: Vec<(u64, FindingKey)>)
    ensures
        r@.len() == catalog_len(Rule::Abi),
        forall|i: int| 0 <= i < r@.len() ==> (#[trigger] r@[i]).0 == i,
        r@[0].1.severity == Severity::Low,
{
    let mut r: Vec<(u64, FindingKey)> = Vec::new();
    r.push(
        (
            0,
            FindingKey {
                summary: String::from_str(
                    "Use `abi.encodeCall() instead of `abi.encodeWithSignature()` or `abi.encodeWithSelector()`",
                ),
                description: String::from_str(
                    "Since 0.8.11, abi.encodeCall provide type-safe encode utility comparing with `abi.encodeWithSelector`. `abi.encodeWithSelector` can use with interface.<function>.selector to prevent typo error, but it doesn't provide type checking.",
                ),
                severity: Severity::Low,
            },
        ),
    );
    r
}

} // verus!
