//! The misc rule: pragma hygiene and deprecated global helpers.  An
//! unpinned compiler pragma is flagged; a pragma whose largest admissible
//! release is 0.8.20 is flagged because that release emits PUSH0, which not
//! every chain supports; and uses of OpenZeppelin's retired `_setupRole`
//! are flagged.

use crate::ast::{Node, NodeKind};
use crate::findings::{FindingKey, Severity};
use crate::rules::{catalog_len, push_finding, spec_push, Rule, RuleCtx, SpecCtx};
use crate::strutil::str_eq;
use crate::version::{
    biggest_version_from_literals, is_unspecific_version, spec_biggest_version,
    spec_unspecific_version, Version,
};
use vstd::prelude::*;

verus! {

/// The type identifier of the retired `_setupRole` helper.
pub open spec fn spec_setup_role_type() -> Seq<char> {
    "t_function_internal_nonpayable$_t_bytes32_$_t_address_$returns$__$"@
}

/// What the misc rule does at a node.
pub open spec fn pre_spec(node: Node, s: SpecCtx) -> SpecCtx {
    match node.kind {
        NodeKind::PragmaDirective(p) => {
            let s1 = if spec_unspecific_version(p.literals@) {
                spec_push(Rule::Misc, s, 0, Some(node.src))
            } else {
                s
            };
            if spec_biggest_version(p.literals@) == Some(
                Version { major: 0, minor: 8, patch: 20 },
            ) {
                spec_push(Rule::Misc, s1, 2, Some(node.src))
            } else {
                s1
            }
        },
        NodeKind::Identifier(id) => {
            if id.name@ == "_setupRole"@ && id.type_descriptions.type_identifier is Some
                && id.type_descriptions.type_identifier->0@ == spec_setup_role_type() {
                spec_push(Rule::Misc, s, 1, Some(node.src))
            } else {
                s
            }
        },
        _ => s,
    }
}

/// The misc rule's hook; it always lets the walk continue.
pub fn pre(node: &Node, ctx: &mut RuleCtx) -> (descend: bool)
    ensures
        final(ctx)@ == pre_spec(*node, old(ctx)@),
        descend,
{
    match &node.kind {
        NodeKind::PragmaDirective(p) => {
            if is_unspecific_version(&p.literals) {
                push_finding(&Rule::Misc, ctx, 0, Some(node.src));
            }
            if let Some(v) = biggest_version_from_literals(&p.literals) {
                if v == Version::new(0, 8, 20) {
                    push_finding(&Rule::Misc, ctx, 2, Some(node.src));
                }
            }
            true
        },
        NodeKind::Identifier(id) => {
            if str_eq(id.name.as_str(), "_setupRole") {
                if let Some(ti) = &id.type_descriptions.type_identifier {
                    if str_eq(
                        ti.as_str(),
                        "t_function_internal_nonpayable$_t_bytes32_$_t_address_$returns$__$",
                    ) {
                        push_finding(&Rule::Misc, ctx, 1, Some(node.src));
                    }
                }
            }
            true
        },
        _ => true,
    }
}

/// The misc rule's catalog.
pub fn catalog() -> (r: Vec<(u64, FindingKey)>)
    ensures
        r@.len() == catalog_len(Rule::Misc),
        forall|i: int| 0 <= i < r@.len() ==> (#[trigger] r@[i]).0 == i,
        r@[0].1.severity == Severity::Low,
        r@[1].1.severity == Severity::Low,
        r@[2].1.severity == Severity::Low,
{
    let mut r: Vec<(u64, FindingKey)> = Vec::new();
    r.push(
        (
            0,
            FindingKey {
                summary: String::from_str("Unlocked compiler pragma"),
                description: String::from_str(
                    "Unspecific compiler version pragma. Please lock the compiler version to avoid unexpected compilation results",
                ),
                severity: Severity::Low,
            },
        ),
    );
    r.push(
        (
            1,
            FindingKey {
                summary: String::from_str("Deprecated functions"),
                description: String::from_str("Do not use deprecated functions"),
                severity: Severity::Low,
            },
        ),
    );
    r.push(
        (
            2,
            FindingKey {
                summary: String::from_str(
                    "Solidity version 0.8.20 adds PUSH0 wich isn't always supported",
                ),
                description: String::from_str(""),
                severity: Severity::Low,
            },
        ),
    );
    r
}

} // verus!
