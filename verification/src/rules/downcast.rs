//! The downcast rule: a conversion to a narrower numeric type carries no
//! runtime check, so a cast whose argument is wider than its target is
//! flagged.

use crate::ast::{FunctionCallKind, Node, NodeKind};
use crate::findings::{FindingKey, Severity};
use crate::rules::{catalog_len, push_finding, spec_push, Rule, RuleCtx, SpecCtx};
use crate::utils::byteslib::{spec_type_width, type_as_bytes};
use vstd::prelude::*;

verus! {

/// The type string an expression node advertises, or nothing.
pub open spec fn spec_expr_type_string(node: Node) -> Option<Seq<char>> {
    match node.kind {
        NodeKind::Identifier(id) => {
            if id.type_descriptions.type_string is Some {
                Some(id.type_descriptions.type_string->0@)
            } else {
                Some(Seq::empty())
            }
        },
        NodeKind::MemberAccess(ma) => {
            if ma.type_descriptions.type_string is Some {
                Some(ma.type_descriptions.type_string->0@)
            } else {
                Some(Seq::empty())
            }
        },
        _ => None,
    }
}

/// What the downcast rule does at a node: a type conversion with one
/// argument whose width exceeds the target's width gets a finding.
pub open spec fn pre_spec(node: Node, s: SpecCtx) -> SpecCtx {
    match node.kind {
        NodeKind::FunctionCall(fc) => {
            if fc.kind == FunctionCallKind::TypeConversion && node.children@.len() == 2
                && spec_expr_type_string(node.children@[1]) is Some {
                let to_ts = if fc.type_descriptions.type_string is Some {
                    fc.type_descriptions.type_string->0@
                } else {
                    Seq::empty()
                };
                let from_ts = spec_expr_type_string(node.children@[1])->0;
                if spec_type_width(from_ts) > spec_type_width(to_ts) {
                    spec_push(Rule::Downcast, s, 0, Some(node.src))
                } else {
                    s
                }
            } else {
                s
            }
        },
        _ => s,
    }
}

/// The rule stops at function calls: the cast's argument is read here.
pub open spec fn descends(node: Node) -> bool {
    !(node.kind is FunctionCall)
}

/// The downcast rule's hook.
pub fn pre(node: &Node, ctx: &mut RuleCtx) -> (descend: bool)
    ensures
        final(ctx)@ == pre_spec(*node, old(ctx)@),
        descend == descends(*node),
{
    match &node.kind {
        NodeKind::FunctionCall(fc) => {
            if fc.kind == FunctionCallKind::TypeConversion && node.children.len() == 2 {
                let arg = &node.children[1];
                let from_bytes: Option<usize> = match &arg.kind {
                    NodeKind::Identifier(id) => {
                        match &id.type_descriptions.type_string {
                            Some(ts) => Some(type_as_bytes(ts.as_str())),
                            None => Some(type_as_bytes("")),
                        }
                    },
                    NodeKind::MemberAccess(ma) => {
                        match &ma.type_descriptions.type_string {
                            Some(ts) => Some(type_as_bytes(ts.as_str())),
                            None => Some(type_as_bytes("")),
                        }
                    },
                    _ => None,
                };
                if let Some(from) = from_bytes {
                    let to = match &fc.type_descriptions.type_string {
                        Some(ts) => type_as_bytes(ts.as_str()),
                        None => type_as_bytes(""),
                    };
                    proof {
                        reveal_strlit("");
                        assert(""@ =~= Seq::<char>::empty());
                    }
                    if from > to {
                        push_finding(&Rule::Downcast, ctx, 0, Some(node.src));
                    }
                }
            }
            false
        },
        _ => true,
    }
}

/// The downcast rule's catalog.
pub fn catalog() -> (r: Vec<(u64, FindingKey)>)
    ensures
        r@.len() == catalog_len(Rule::Downcast),
        forall|i: int| 0 <= i < r@.len() ==> (#[trigger] r@[i]).0 == i,
        r@[0].1.severity == Severity::Low,
{
    let mut r: Vec<(u64, FindingKey)> = Vec::new();
    r.push(
        (
            0,
            FindingKey {
                summary: String::from_str("Unsafe downcast"),
                description: String::from_str(
                    "When downcasting to a smaller type, Solidity doesn't write any runtime check which may lead to bugs.",
                ),
                severity: Severity::Low,
            },
        ),
    );
    r
}

} // verus!
