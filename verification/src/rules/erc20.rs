//! The erc20 rule: token operations that ignore failure.  Plain
//! `transfer`/`transferFrom`/`approve` on a token either revert or signal
//! failure through their boolean result; calling them unsafely, or keeping
//! the deprecated `safeApprove`, is flagged, as is binding a token
//! transfer's result to something that is not a boolean.

use crate::ast::{MemberAccess, Node, NodeKind, Src};
use crate::findings::{FindingKey, Severity};
use crate::rules::{catalog_len, push_finding, spec_push, Rule, RuleCtx, SpecCtx};
use crate::strutil::{spec_starts_with, starts_with_str, str_eq};
use vstd::prelude::*;

verus! {

/// Is this member access a bare token `transfer`: member name `transfer`
/// with the token-transfer function type?
pub open spec fn spec_member_code0(ma: MemberAccess) -> bool {
    &&& ma.member_name@ == "transfer"@
    &&& ma.type_descriptions.type_string is Some
    &&& spec_starts_with(ma.type_descriptions.type_string->0@, "function (address,uint256)"@)
}

/// The findings a member access yields on its own: code 0 for a bare token
/// transfer, code 1 for the deprecated `safeApprove`.
pub open spec fn spec_check_member(node: Node) -> Seq<(u64, Option<Src>)> {
    match node.kind {
        NodeKind::MemberAccess(ma) => {
            (if spec_member_code0(ma) {
                seq![(0u64, Some(node.src))]
            } else {
                Seq::empty()
            }) + (if ma.member_name@ == "safeApprove"@ {
                seq![(1u64, Some(node.src))]
            } else {
                Seq::empty()
            })
        },
        _ => Seq::empty(),
    }
}

/// The findings a member access yields on its own; anything that is not a
/// member access yields none.
pub fn check_member(node: &Node) -> (r: Vec<(u64, Option<Src>)>)
    ensures
        r@ == spec_check_member(*node),
        forall|i: int| 0 <= i < r@.len() ==> (#[trigger] r@[i]).0 < catalog_len(Rule::Erc20),
{
    let mut r: Vec<(u64, Option<Src>)> = Vec::new();
    match &node.kind {
        NodeKind::MemberAccess(ma) => {
            let code0 = str_eq(ma.member_name.as_str(), "transfer") && (match &ma
                .type_descriptions
                .type_string {
                Some(ts) => starts_with_str(ts.as_str(), "function (address,uint256)"),
                None => false,
            });
            if code0 {
                r.push((0, Some(node.src)));
            }
            if str_eq(ma.member_name.as_str(), "safeApprove") {
                r.push((1, Some(node.src)));
            }
            proof {
                assert(r@ =~= spec_check_member(*node));
            }
        },
        _ => {
            proof {
                assert(r@ =~= spec_check_member(*node));
            }
        },
    }
    r
}

/// The findings of a member access, appended to the context in order.
pub open spec fn spec_push_member(s: SpecCtx, node: Node) -> SpecCtx {
    let ma_findings = spec_check_member(node);
    spec_push_pairs(s, ma_findings)
}

/// Append a list of (code, range) findings for the erc20 rule.
pub open spec fn spec_push_pairs(s: SpecCtx, ps: Seq<(u64, Option<Src>)>) -> SpecCtx
    decreases ps.len(),
{
    if ps.len() == 0 {
        s
    } else {
        spec_push(Rule::Erc20, spec_push_pairs(s, ps.drop_last()), ps.last().0, ps.last().1)
    }
}

/// What the erc20 rule does at a node.
pub open spec fn pre_spec(node: Node, s: SpecCtx) -> SpecCtx {
    match node.kind {
        NodeKind::MemberAccess(_) => spec_push_member(s, node),
        NodeKind::VariableDeclarationStatement => {
            if node.children@.len() > 0 && node.children@.last().kind is FunctionCall && !(
            node.children@.last().kind->FunctionCall_0.type_descriptions.type_string is Some
                && node.children@.last().kind->FunctionCall_0.type_descriptions.type_string->0@
                == "bool"@) && node.children@.last().children@.len() > 0
                && node.children@.last().children@[0].kind is MemberAccess
                && spec_member_code0(
                node.children@.last().children@[0].kind->MemberAccess_0,
            ) {
                spec_push(Rule::Erc20, s, 3, Some(node.src))
            } else {
                s
            }
        },
        _ => s,
    }
}

/// The erc20 rule's hook; it always lets the walk continue.
pub fn pre(node: &Node, ctx: &mut RuleCtx) -> (descend: bool)
    ensures
        final(ctx)@ == pre_spec(*node, old(ctx)@),
        descend,
{
    match &node.kind {
        NodeKind::MemberAccess(_) => {
            let found = check_member(node);
            let n = found.len();
            let mut i: usize = 0;
            proof {
                assert(found@.take(0) =~= Seq::<(u64, Option<Src>)>::empty());
            }
            while i < n
                invariant
                    i <= n,
                    n == found@.len(),
                    forall|k: int|
                        0 <= k < found@.len() ==> (#[trigger] found@[k]).0 < catalog_len(
                            Rule::Erc20,
                        ),
                    ctx@ == spec_push_pairs(old(ctx)@, found@.take(i as int)),
                decreases n - i,
            {
                proof {
                    assert(found@.take(i + 1).drop_last() =~= found@.take(i as int));
                    assert(found@.take(i + 1).last() == found@[i as int]);
                }
                push_finding(&Rule::Erc20, ctx, found[i].0, found[i].1);
                i += 1;
            }
            proof {
                assert(found@.take(n as int) =~= found@);
            }
            true
        },
        NodeKind::VariableDeclarationStatement => {
            let n = node.children.len();
            if n > 0 {
                let last = &node.children[n - 1];
                if let NodeKind::FunctionCall(fc) = &last.kind {
                    let is_bool = match &fc.type_descriptions.type_string {
                        Some(ts) => str_eq(ts.as_str(), "bool"),
                        None => false,
                    };
                    if !is_bool && last.children.len() > 0 {
                        if let NodeKind::MemberAccess(ma) = &last.children[0].kind {
                            let code0 = str_eq(ma.member_name.as_str(), "transfer") && (match &ma
                                .type_descriptions
                                .type_string {
                                Some(ts) => starts_with_str(
                                    ts.as_str(),
                                    "function (address,uint256)",
                                ),
                                None => false,
                            });
                            if code0 {
                                push_finding(&Rule::Erc20, ctx, 3, Some(node.src));
                            }
                        }
                    }
                }
            }
            true
        },
        _ => true,
    }
}

/// The erc20 rule's catalog.
pub fn catalog() -> (r: Vec<(u64, FindingKey)>)
    ensures
        r@.len() == catalog_len(Rule::Erc20),
        forall|i: int| 0 <= i < r@.len() ==> (#[trigger] r@[i]).0 == i,
        r@[0].1.severity == Severity::Medium,
        r@[1].1.severity == Severity::Medium,
        r@[2].1.severity == Severity::Low,
        r@[3].1.severity == Severity::Low,
{
    let mut r: Vec<(u64, FindingKey)> = Vec::new();
    r.push(
        (
            0,
            FindingKey {
                summary: String::from_str("Unsafe ERC20 operation"),
                description: String::from_str(
                    "Unsafe ERC20 operation(s), use `safeTransfer` instead",
                ),
                severity: Severity::Medium,
            },
        ),
    );
    r.push(
        (
            1,
            FindingKey {
                summary: String::from_str("Unsafe ERC20 operation"),
                description: String::from_str(
                    "Unsafe ERC20 operation(s), use `safeIncreaseAllowance` instead",
                ),
                severity: Severity::Medium,
            },
        ),
    );
    r.push(
        (
            2,
            FindingKey {
                summary: String::from_str("Unsafe ERC20 operation"),
                description: String::from_str(
                    "Unsafe ERC20 operation(s), use `safeTransfer` instead",
                ),
                severity: Severity::Low,
            },
        ),
    );
    r.push(
        (
            3,
            FindingKey {
                summary: String::from_str("Return values of transfer()/transferFrom() not checked"),
                description: String::from_str(
                    "Not all IERC20 implementations revert() when there's a failure in transfer()/transferFrom(). The function signature has a boolean return value and they indicate errors that way instead. By not checking the return value, operations that should have marked as failed, may potentially go through without actually making a payment",
                ),
                severity: Severity::Low,
            },
        ),
    );
    r
}


/// Pushing member findings emits only the rule's own cataloged codes.
pub proof fn lemma_push_pairs_ok(s: SpecCtx, ps: Seq<(u64, Option<Src>)>)
    requires
        crate::rules::findings_ok(Rule::Erc20, s.findings),
        forall|i: int| 0 <= i < ps.len() ==> (#[trigger] ps[i]).0 < catalog_len(Rule::Erc20),
    ensures
        crate::rules::findings_ok(Rule::Erc20, spec_push_pairs(s, ps).findings),
    decreases ps.len(),
{
    if ps.len() > 0 {
        assert(forall|i: int|
            0 <= i < ps.len() - 1 ==> (#[trigger] ps.drop_last()[i]).0 < catalog_len(
                Rule::Erc20,
            )) by {
            assert(forall|i: int| 0 <= i < ps.len() - 1 ==> ps.drop_last()[i] == ps[i]);
        }
        lemma_push_pairs_ok(s, ps.drop_last());
        assert(ps.last() == ps[ps.len() - 1]);
        crate::rules::lemma_spec_push_ok(
            Rule::Erc20,
            spec_push_pairs(s, ps.drop_last()),
            ps.last().0,
            ps.last().1,
        );
    }
}

/// The codes a member access can yield are cataloged.
pub proof fn lemma_check_member_codes(node: Node)
    ensures
        forall|i: int|
            0 <= i < spec_check_member(node).len() ==> (#[trigger] spec_check_member(
                node,
            )[i]).0 < catalog_len(Rule::Erc20),
{
}

} // verus!
