//! The two assembly rules.
//!
//! The block rule flags every inline-assembly block and, inside one, every
//! assignment whose value comes out of an assembly call; inside a for loop
//! it inspects the loop body only.  The opcode rule flags assembly uses of
//! opcodes whose effect is available from high-level code.

use crate::ast::{Node, NodeKind};
use crate::findings::{FindingKey, Severity};
use crate::rules::{catalog_len, push_finding, spec_push, Rule, RuleCtx, SpecCtx};
use crate::strutil::str_eq;
use vstd::prelude::*;

verus! {

/// The block rule stops the generic walk at assembly blocks and scans them
/// itself.
pub open spec fn usage_descends(node: Node) -> bool {
    !(node.kind is InlineAssembly)
}

/// One assembly statement, as the block rule scans it.
pub open spec fn scan_spec(node: Node, s: SpecCtx) -> SpecCtx
    decreases node,
{
    match node.kind {
        NodeKind::YulAssignment => {
            if node.children@.len() > 0 && node.children@.last().kind is YulFunctionCall {
                spec_push(Rule::AssemblyUsage, s, 1, Some(node.src))
            } else {
                s
            }
        },
        NodeKind::YulBlock => scan_seq_spec(node.children@, s),
        NodeKind::YulForLoop => {
            if node.children@.len() == 4 {
                scan_spec(node.children@[3], s)
            } else {
                s
            }
        },
        _ => s,
    }
}

/// A run of assembly statements, scanned left to right.
pub open spec fn scan_seq_spec(ns: Seq<Node>, s: SpecCtx) -> SpecCtx
    decreases ns,
{
    if ns.len() == 0 {
        s
    } else {
        scan_spec(ns.last(), scan_seq_spec(ns.drop_last(), s))
    }
}

/// What the block rule does at a node.
pub open spec fn usage_pre_spec(node: Node, s: SpecCtx) -> SpecCtx {
    if node.kind is InlineAssembly {
        scan_seq_spec(node.children@, spec_push(Rule::AssemblyUsage, s, 0, Some(node.src)))
    } else {
        s
    }
}

fn scan(node: &Node, ctx: &mut RuleCtx)
    ensures
        final(ctx)@ == scan_spec(*node, old(ctx)@),
    decreases *node, 1int,
{
    match &node.kind {
        NodeKind::YulAssignment => {
            let n = node.children.len();
            if n > 0 {
                if matches!(&node.children[n - 1].kind, NodeKind::YulFunctionCall) {
                    push_finding(&Rule::AssemblyUsage, ctx, 1, Some(node.src));
                }
            }
        },
        NodeKind::YulBlock => {
            scan_children(node, ctx);
        },
        NodeKind::YulForLoop => {
            if node.children.len() == 4 {
                scan(&node.children[3], ctx);
            }
        },
        _ => {},
    }
}

fn scan_children(node: &Node, ctx: &mut RuleCtx)
    requires
        node.kind is YulBlock || node.kind is InlineAssembly,
    ensures
        final(ctx)@ == scan_seq_spec(node.children@, old(ctx)@),
    decreases *node, 0int,
{
    let n = node.children.len();
    let mut i: usize = 0;
    proof {
        assert(node.children@.take(0) =~= Seq::<Node>::empty());
    }
    while i < n
        invariant
            i <= n,
            n == node.children@.len(),
            ctx@ == scan_seq_spec(node.children@.take(i as int), old(ctx)@),
        decreases n - i,
    {
        proof {
            assert(node.children@.take(i + 1).drop_last() =~= node.children@.take(i as int));
            assert(node.children@.take(i + 1).last() == node.children@[i as int]);
        }
        scan(&node.children[i], ctx);
        i += 1;
    }
    proof {
        assert(node.children@.take(n as int) =~= node.children@);
    }
}

/// The block rule's hook.
pub fn usage_pre(node: &Node, ctx: &mut RuleCtx) -> (descend: bool)
    ensures
        final(ctx)@ == usage_pre_spec(*node, old(ctx)@),
        descend == usage_descends(*node),
{
    match &node.kind {
        NodeKind::InlineAssembly => {
            push_finding(&Rule::AssemblyUsage, ctx, 0, Some(node.src));
            scan_children(node, ctx);
            false
        },
        _ => true,
    }
}

/// The block rule's catalog.
pub fn usage_catalog() -> (r: Vec<(u64, FindingKey)>)
    ensures
        r@.len() == catalog_len(Rule::AssemblyUsage),
        forall|i: int| 0 <= i < r@.len() ==> (#[trigger] r@[i]).0 == i,
        r@[0].1.severity == Severity::Informal,
        r@[1].1.severity == Severity::Medium,
{
    let mut r: Vec<(u64, FindingKey)> = Vec::new();
    r.push(
        (
            0,
            FindingKey {
                summary: String::from_str("Usage of inline assembly"),
                description: String::from_str("usage of inline assembly, take extra care here"),
                severity: Severity::Informal,
            },
        ),
    );
    r.push(
        (
            1,
            FindingKey {
                summary: String::from_str("Assembly assignment from a call"),
                description: String::from_str(
                    "using extcodesize. Can be an issue if determining if EOA.",
                ),
                severity: Severity::Medium,
            },
        ),
    );
    r
}

/// An assembly opcode that a high-level construct already exposes.
pub open spec fn spec_flagged_opcode(n: Seq<char>) -> bool {
    ||| n == "extcodesize"@
    ||| n == "caller"@
    ||| n == "callvalue"@
    ||| n == "calldatasize"@
    ||| n == "chainid"@
    ||| n == "gas"@
    ||| n == "extcodehash"@
    ||| n == "selfbalance"@
    ||| n == "address"@
}

/// What the opcode rule does at a node.
pub open spec fn opcode_pre_spec(node: Node, s: SpecCtx) -> SpecCtx {
    match node.kind {
        NodeKind::YulIdentifier(y) => {
            if spec_flagged_opcode(y.name@) {
                let s1 = spec_push(Rule::Assembly, s, 1, Some(node.src));
                if y.name@ == "extcodesize"@ {
                    spec_push(Rule::Assembly, s1, 0, Some(node.src))
                } else {
                    s1
                }
            } else {
                s
            }
        },
        _ => s,
    }
}

/// The opcode rule's hook; it always lets the walk continue.
pub fn opcode_pre(node: &Node, ctx: &mut RuleCtx) -> (descend: bool)
    ensures
        final(ctx)@ == opcode_pre_spec(*node, old(ctx)@),
        descend,
{
    match &node.kind {
        NodeKind::YulIdentifier(y) => {
            let nm = y.name.as_str();
            let flagged = str_eq(nm, "extcodesize") || str_eq(nm, "caller") || str_eq(
                nm,
                "callvalue",
            ) || str_eq(nm, "calldatasize") || str_eq(nm, "chainid") || str_eq(nm, "gas")
                || str_eq(nm, "extcodehash") || str_eq(nm, "selfbalance") || str_eq(
                nm,
                "address",
            );
            if flagged {
                push_finding(&Rule::Assembly, ctx, 1, Some(node.src));
                if str_eq(nm, "extcodesize") {
                    push_finding(&Rule::Assembly, ctx, 0, Some(node.src));
                }
            }
            true
        },
        _ => true,
    }
}

/// The opcode rule's catalog.
pub fn opcode_catalog() -> (r: Vec<(u64, FindingKey)>)
    ensures
        r@.len() == catalog_len(Rule::Assembly),
        forall|i: int| 0 <= i < r@.len() ==> (#[trigger] r@[i]).0 == i,
        r@[0].1.severity == Severity::Medium,
        r@[1].1.severity == Severity::Informal,
{
    let mut r: Vec<(u64, FindingKey)> = Vec::new();
    r.push(
        (
            0,
            FindingKey {
                summary: String::from_str("extcodesize for EOA test"),
                description: String::from_str(
                    "using extcodesize. Can be an issue if determining if EOA.",
                ),
                severity: Severity::Medium,
            },
        ),
    );
    r.push(
        (
            1,
            FindingKey {
                summary: String::from_str("No need to use assembly for available method"),
                description: String::from_str(
                    "Some methods that are accessed using assembly can be accessed by high level methods. It is thus no need the risk of using assembly, which may flag some static analyzers or shoot yourself in the foot.",
                ),
                severity: Severity::Informal,
            },
        ),
    );
    r
}


/// The block rule's scan emits only its own cataloged findings.
pub proof fn lemma_scan_ok(node: Node, s: SpecCtx)
    requires
        crate::rules::findings_ok(Rule::AssemblyUsage, s.findings),
    ensures
        crate::rules::findings_ok(Rule::AssemblyUsage, scan_spec(node, s).findings),
    decreases node, 1int,
{
    match node.kind {
        NodeKind::YulAssignment => {
            if node.children@.len() > 0 && node.children@.last().kind is YulFunctionCall {
                crate::rules::lemma_spec_push_ok(Rule::AssemblyUsage, s, 1, Some(node.src));
            }
        },
        NodeKind::YulBlock => {
            lemma_scan_seq_ok(node.children@, s);
        },
        NodeKind::YulForLoop => {
            if node.children@.len() == 4 {
                lemma_scan_ok(node.children@[3], s);
            }
        },
        _ => {},
    }
}

/// Scanning an assembly block's statements keeps the findings the rule's
/// own; entry point for the dispatch-level invariant.
pub proof fn lemma_scan_seq_pre_ok(node: Node, s: SpecCtx)
    requires
        crate::rules::findings_ok(
            Rule::AssemblyUsage,
            spec_push(Rule::AssemblyUsage, s, 0, Some(node.src)).findings,
        ),
    ensures
        crate::rules::findings_ok(Rule::AssemblyUsage, usage_pre_spec(node, s).findings),
{
    if node.kind is InlineAssembly {
        lemma_scan_seq_ok(node.children@, spec_push(Rule::AssemblyUsage, s, 0, Some(node.src)));
    } else {
        let pushed = spec_push(Rule::AssemblyUsage, s, 0, Some(node.src)).findings;
        assert forall|i: int|
            0 <= i < s.findings.len() implies (#[trigger] s.findings[i]).code < catalog_len(
            Rule::AssemblyUsage,
        ) && s.findings[i].name == crate::rules::rule_name_spec(Rule::AssemblyUsage) by {
            assert(s.findings[i] == pushed[i]);
        }
    }
}

proof fn lemma_scan_seq_ok(ns: Seq<Node>, s: SpecCtx)
    requires
        crate::rules::findings_ok(Rule::AssemblyUsage, s.findings),
    ensures
        crate::rules::findings_ok(Rule::AssemblyUsage, scan_seq_spec(ns, s).findings),
    decreases ns, 0int,
{
    if ns.len() > 0 {
        lemma_scan_seq_ok(ns.drop_last(), s);
        lemma_scan_ok(ns.last(), scan_seq_spec(ns.drop_last(), s));
    }
}

} // verus!
