//! The events rule: an event without indexed parameters is hard to filter,
//! and an emission that does not include the sender is hard to attribute
//! off chain.

use crate::ast::{Node, NodeKind};
use crate::findings::{FindingKey, Severity};
use crate::rules::{catalog_len, push_finding, spec_push, Rule, RuleCtx, SpecCtx};
use crate::strutil::str_eq;
use vstd::prelude::*;

verus! {

/// Does some parameter declaration lack `indexed`?
pub open spec fn spec_has_unindexed(children: Seq<Node>) -> bool {
    exists|i: int|
        0 <= i < children.len() && (#[trigger] children[i]).kind is VariableDeclaration
            && !children[i].kind->VariableDeclaration_0.indexed
}

/// Is this argument exactly `msg.sender`?
pub open spec fn spec_arg_is_msg_sender(n: Node) -> bool {
    &&& n.kind is MemberAccess
    &&& n.kind->MemberAccess_0.member_name@ == "sender"@
    &&& n.children@.len() > 0
    &&& n.children@[0].kind is Identifier
    &&& n.children@[0].kind->Identifier_0.type_descriptions.type_string is Some
    &&& n.children@[0].kind->Identifier_0.type_descriptions.type_string->0@ == "msg"@
}

/// Does some emitted argument carry the sender?
pub open spec fn spec_emits_sender(args: Seq<Node>) -> bool {
    exists|i: int| 0 <= i < args.len() && spec_arg_is_msg_sender(#[trigger] args[i])
}

/// The arguments of an emit statement: what follows the callee of its event
/// call.
pub open spec fn spec_emit_args(node: Node) -> Seq<Node> {
    if node.children@.len() > 0 && node.children@[0].kind is FunctionCall && node.children@[0].children@.len() >= 1 {
        node.children@[0].children@.skip(1)
    } else {
        Seq::empty()
    }
}

/// What the events rule does at a node.
pub open spec fn pre_spec(node: Node, s: SpecCtx) -> SpecCtx {
    match node.kind {
        NodeKind::EventDefinition(_) => {
            if spec_has_unindexed(node.children@) {
                spec_push(Rule::Events, s, 1, Some(node.src))
            } else {
                s
            }
        },
        NodeKind::EmitStatement => {
            if !spec_emits_sender(spec_emit_args(node)) {
                spec_push(Rule::Events, s, 0, Some(node.src))
            } else {
                s
            }
        },
        _ => s,
    }
}

/// The rule reads event definitions and emissions whole and does not walk
/// into them.
pub open spec fn descends(node: Node) -> bool {
    !(node.kind is EventDefinition) && !(node.kind is EmitStatement)
}

fn arg_is_msg_sender(n: &Node) -> (r: bool)
    ensures
        r == spec_arg_is_msg_sender(*n),
{
    if let NodeKind::MemberAccess(ma) = &n.kind {
        if str_eq(ma.member_name.as_str(), "sender") && n.children.len() > 0 {
            if let NodeKind::Identifier(id) = &n.children[0].kind {
                if let Some(ts) = &id.type_descriptions.type_string {
                    return str_eq(ts.as_str(), "msg");
                }
            }
        }
    }
    false
}

/// The events rule's hook.
pub fn pre(node: &Node, ctx: &mut RuleCtx) -> (descend: bool)
    ensures
        final(ctx)@ == pre_spec(*node, old(ctx)@),
        descend == descends(*node),
{
    match &node.kind {
        NodeKind::EventDefinition(_) => {
            let n = node.children.len();
            let mut i: usize = 0;
            let mut found = false;
            while i < n
                invariant
                    i <= n,
                    n == node.children@.len(),
                    found == spec_has_unindexed(node.children@.take(i as int)),
                decreases n - i,
            {
                proof {
                    assert(forall|k: int|
                        0 <= k < i ==> node.children@.take(i as int)[k] == node.children@.take(
                            i + 1,
                        )[k]);
                }
                if !found {
                    if let NodeKind::VariableDeclaration(vd) = &node.children[i].kind {
                        if !vd.indexed {
                            found = true;
                            proof {
                                assert(node.children@.take(i + 1)[i as int]
                                    == node.children@[i as int]);
                            }
                        }
                    }
                }
                proof {
                    if !found {
                        assert(!spec_has_unindexed(node.children@.take(i + 1))) by {
                            assert forall|k: int|
                                0 <= k < i + 1 && (#[trigger] node.children@.take(i + 1)[k]).kind
                                    is VariableDeclaration implies node.children@.take(
                                i + 1,
                            )[k].kind->VariableDeclaration_0.indexed by {
                                if k < i {
                                    assert(node.children@.take(i as int)[k] == node.children@.take(
                                        i + 1,
                                    )[k]);
                                    assert(!spec_has_unindexed(node.children@.take(i as int)));
                                } else {
                                    assert(node.children@.take(i + 1)[k]
                                        == node.children@[i as int]);
                                }
                            }
                        }
                    } else {
                        if spec_has_unindexed(node.children@.take(i as int)) {
                            let w = choose|w: int|
                                0 <= w < i && (#[trigger] node.children@.take(i as int)[w]).kind
                                    is VariableDeclaration && !node.children@.take(
                                    i as int,
                                )[w].kind->VariableDeclaration_0.indexed;
                            assert(node.children@.take(i + 1)[w] == node.children@.take(
                                i as int,
                            )[w]);
                        }
                    }
                }
                i += 1;
            }
            proof {
                assert(node.children@.take(n as int) =~= node.children@);
            }
            if found {
                push_finding(&Rule::Events, ctx, 1, Some(node.src));
            }
            false
        },
        NodeKind::EmitStatement => {
            let mut emits = false;
            if node.children.len() > 0 {
                let call = &node.children[0];
                let m = call.children.len();
                if matches!(&call.kind, NodeKind::FunctionCall(_)) && m >= 1 {
                    let ghost args = spec_emit_args(*node);
                    let mut j: usize = 1;
                    proof {
                        assert(args =~= call.children@.skip(1));
                        assert(args.take(0) =~= Seq::<Node>::empty());
                    }
                    while j < m
                        invariant
                            1 <= j <= m,
                            m == call.children@.len(),
                            args == call.children@.skip(1),
                            emits == spec_emits_sender(args.take(j - 1)),
                        decreases m - j,
                    {
                        proof {
                            assert(args.take(j as int).drop_last() =~= args.take(j - 1));
                            assert(args.take(j as int)[j - 1] == args[j - 1]);
                            assert(args[j - 1] == call.children@[j as int]);
                        }
                        if !emits {
                            if arg_is_msg_sender(&call.children[j]) {
                                emits = true;
                                proof {
                                    assert(spec_arg_is_msg_sender(args.take(j as int)[j - 1]));
                                }
                            }
                        }
                        proof {
                            if !emits {
                                assert(!spec_emits_sender(args.take(j as int))) by {
                                    assert forall|k: int|
                                        0 <= k < j implies !spec_arg_is_msg_sender(
                                        #[trigger] args.take(j as int)[k],
                                    ) by {
                                        if k < j - 1 {
                                            assert(args.take(j as int)[k] == args.take(j - 1)[k]);
                                        }
                                    }
                                }
                            } else {
                                if spec_emits_sender(args.take(j - 1)) {
                                    let w = choose|w: int|
                                        0 <= w < j - 1 && spec_arg_is_msg_sender(
                                            #[trigger] args.take(j - 1)[w],
                                        );
                                    assert(args.take(j as int)[w] == args.take(j - 1)[w]);
                                }
                            }
                        }
                        j += 1;
                    }
                    proof {
                        assert(args.take(m - 1) =~= args);
                    }
                }
            }
            if !emits {
                push_finding(&Rule::Events, ctx, 0, Some(node.src));
            }
            false
        },
        _ => true,
    }
}

/// The events rule's catalog.
pub fn catalog() -> (r: Vec<(u64, FindingKey)>)
    ensures
        r@.len() == catalog_len(Rule::Events),
        forall|i: int| 0 <= i < r@.len() ==> (#[trigger] r@[i]).0 == i,
        r@[0].1.severity == Severity::Informal,
        r@[1].1.severity == Severity::Informal,
{
    let mut r: Vec<(u64, FindingKey)> = Vec::new();
    r.push(
        (
            0,
            FindingKey {
                summary: String::from_str("Events are missing sender information"),
                description: String::from_str(
                    "It's generally a good idea to include the public address of the sender of the call in which the event emitted because it may become hard to track off chain without any other information.",
                ),
                severity: Severity::Informal,
            },
        ),
    );
    r.push(
        (
            1,
            FindingKey {
                summary: String::from_str("Event is missing indexed parameters"),
                description: String::from_str(
                    "It is usually a good idea to use indexed events since they can be fetched much easier using filtering off chain at a slightly higher gas cost.",
                ),
                severity: Severity::Informal,
            },
        ),
    );
    r
}

} // verus!
