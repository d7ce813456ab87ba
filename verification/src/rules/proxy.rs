//! The proxy rule: initialisation hazards of upgradeable contracts.  An
//! `initialize` function is a front-running target and must carry the
//! `initializer` modifier; an upgradeable contract should reserve a
//! `__gap` storage array for future variables.  Interfaces are skipped
//! entirely.

use crate::ast::{
    ContractKind, FunctionDefinition, IdentifierOrIdentifierPath, Node, NodeKind,
};
use crate::findings::{FindingKey, Severity};
use crate::rules::{catalog_len, push_finding, spec_push, Rule, RuleCtx, SpecCtx};
use crate::strutil::{contains_str, spec_contains, str_eq};
use vstd::prelude::*;

verus! {

/// Is this an `initialize` function guarded by an `initializer` modifier?
pub open spec fn spec_has_initializer(fd: FunctionDefinition) -> bool {
    &&& fd.name@ == "initialize"@
    &&& exists|i: int|
        0 <= i < fd.modifiers@.len() && (#[trigger] fd.modifiers@[i]).modifier_name
            is IdentifierPath && fd.modifiers@[i].modifier_name->IdentifierPath_0@
            == "initializer"@
}

/// Is this an `initialize` function guarded by an `initializer` modifier?
pub fn has_initializer(fd: &FunctionDefinition) -> (r: bool)
    ensures
        r == spec_has_initializer(*fd),
{
    if !str_eq(fd.name.as_str(), "initialize") {
        return false;
    }
    let n = fd.modifiers.len();
    let mut i: usize = 0;
    while i < n
        invariant
            i <= n,
            n == fd.modifiers@.len(),
            fd.name@ == "initialize"@,
            forall|k: int|
                0 <= k < i ==> !((#[trigger] fd.modifiers@[k]).modifier_name is IdentifierPath
                    && fd.modifiers@[k].modifier_name->IdentifierPath_0@ == "initializer"@),
        decreases n - i,
    {
        if let IdentifierOrIdentifierPath::IdentifierPath(nm) = &fd.modifiers[i].modifier_name {
            if str_eq(nm.as_str(), "initializer") {
                proof {
                    assert((#[trigger] fd.modifiers@[i as int]).modifier_name is IdentifierPath
                        && fd.modifiers@[i as int].modifier_name->IdentifierPath_0@
                        == "initializer"@);
                }
                return true;
            }
        }
        i += 1;
    }
    false
}

/// Does the contract hold a guarded initializer among its members?
pub open spec fn spec_some_guarded_init(children: Seq<Node>) -> bool {
    exists|i: int|
        0 <= i < children.len() && (#[trigger] children[i]).kind is FunctionDefinition
            && spec_has_initializer(children[i].kind->FunctionDefinition_0)
}

/// Does the contract declare a state variable with `gap` in its name?
pub open spec fn spec_some_gap_var(children: Seq<Node>) -> bool {
    exists|i: int|
        0 <= i < children.len() && (#[trigger] children[i]).kind is VariableDeclaration
            && children[i].kind->VariableDeclaration_0.state_variable && spec_contains(
            children[i].kind->VariableDeclaration_0.name@,
            "gap"@,
        )
}

/// What the proxy rule does at a node.
pub open spec fn pre_spec(node: Node, s: SpecCtx) -> SpecCtx {
    match node.kind {
        NodeKind::ContractDefinition(_) => {
            if spec_some_guarded_init(node.children@) && !spec_some_gap_var(node.children@) {
                spec_push(Rule::Proxy, s, 2, None)
            } else {
                s
            }
        },
        NodeKind::FunctionDefinition(fd) => {
            if fd.name@ == "initialize"@ {
                let s1 = spec_push(Rule::Proxy, s, 0, Some(node.src));
                if !spec_has_initializer(fd) {
                    spec_push(Rule::Proxy, s1, 1, Some(node.src))
                } else {
                    s1
                }
            } else {
                s
            }
        },
        _ => s,
    }
}

/// The rule walks everything but interfaces.
pub open spec fn descends(node: Node) -> bool {
    match node.kind {
        NodeKind::ContractDefinition(cd) => !(cd.kind == ContractKind::Interface),
        _ => true,
    }
}

fn some_guarded_init(children: &Vec<Node>) -> (r: bool)
    ensures
        r == spec_some_guarded_init(children@),
{
    let n = children.len();
    let mut i: usize = 0;
    while i < n
        invariant
            i <= n,
            n == children@.len(),
            forall|k: int|
                0 <= k < i ==> !((#[trigger] children@[k]).kind is FunctionDefinition
                    && spec_has_initializer(children@[k].kind->FunctionDefinition_0)),
        decreases n - i,
    {
        if let NodeKind::FunctionDefinition(fd) = &children[i].kind {
            if has_initializer(fd) {
                return true;
            }
        }
        i += 1;
    }
    false
}

fn some_gap_var(children: &Vec<Node>) -> (r: bool)
    ensures
        r == spec_some_gap_var(children@),
{
    let n = children.len();
    let mut i: usize = 0;
    while i < n
        invariant
            i <= n,
            n == children@.len(),
            forall|k: int|
                0 <= k < i ==> !((#[trigger] children@[k]).kind is VariableDeclaration
                    && children@[k].kind->VariableDeclaration_0.state_variable && spec_contains(
                    children@[k].kind->VariableDeclaration_0.name@,
                    "gap"@,
                )),
        decreases n - i,
    {
        if let NodeKind::VariableDeclaration(vd) = &children[i].kind {
            if vd.state_variable {
                if contains_str(vd.name.as_str(), "gap") {
                    return true;
                }
            }
        }
        i += 1;
    }
    false
}

/// The proxy rule's hook.
pub fn pre(node: &Node, ctx: &mut RuleCtx) -> (descend: bool)
    ensures
        final(ctx)@ == pre_spec(*node, old(ctx)@),
        descend == descends(*node),
{
    match &node.kind {
        NodeKind::ContractDefinition(cd) => {
            if some_guarded_init(&node.children) && !some_gap_var(&node.children) {
                push_finding(&Rule::Proxy, ctx, 2, None);
            }
            !(cd.kind == ContractKind::Interface)
        },
        NodeKind::FunctionDefinition(fd) => {
            if str_eq(fd.name.as_str(), "initialize") {
                push_finding(&Rule::Proxy, ctx, 0, Some(node.src));
                if !has_initializer(fd) {
                    push_finding(&Rule::Proxy, ctx, 1, Some(node.src));
                }
            }
            true
        },
        _ => true,
    }
}

/// The proxy rule's catalog.
pub fn catalog() -> (r: Vec<(u64, FindingKey)>)
    ensures
        r@.len() == catalog_len(Rule::Proxy),
        forall|i: int| 0 <= i < r@.len() ==> (#[trigger] r@[i]).0 == i,
        r@[0].1.severity == Severity::Low,
        r@[1].1.severity == Severity::Medium,
        r@[2].1.severity == Severity::Low,
{
    let mut r: Vec<(u64, FindingKey)> = Vec::new();
    r.push(
        (
            0,
            FindingKey {
                summary: String::from_str("Front-run of initializers"),
                description: String::from_str(
                    "Initializers could be front-run, allowing an attacker to either set their own values, take ownership of the contract, and in the best case forcing a re-deployment",
                ),
                severity: Severity::Low,
            },
        ),
    );
    r.push(
        (
            1,
            FindingKey {
                summary: String::from_str("Missing modifier"),
                description: String::from_str(
                    "Initialized function does not have an initializable modifier",
                ),
                severity: Severity::Medium,
            },
        ),
    );
    r.push(
        (
            2,
            FindingKey {
                summary: String::from_str(
                    "Upgradeable contract is missing a `___gap[50]` unitialized storage pointer to allow for future-proof proxy storage. It is a good practice for proxy contracts to add such a variable, because it will allow in case of need, new variables through the Proxy.",
                ),
                description: String::from_str("Upgradeable contract is missing a `___gap[50]`"),
                severity: Severity::Low,
            },
        ),
    );
    r
}

} // verus!
