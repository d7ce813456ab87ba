//! The style rule: naming and layout advice.  Storage variables should be
//! prefixed `s_`, private members underscored, `uint`/`int` written with an
//! explicit size, custom errors given parameters, and indentation should
//! move in four-space steps.

use crate::ast::{Node, NodeKind, Visibility};
use crate::findings::{FindingKey, Severity};
use crate::rules::{catalog_len, push_finding, spec_push, Rule, RuleCtx, SpecCtx};
use crate::strutil::{spec_starts_with, starts_with_str, str_eq};
use vstd::prelude::*;

verus! {

/// The position of the first newline at or after `i`, or the text's end.
pub open spec fn first_nl_from(text: Seq<u8>, i: int) -> int
    decreases text.len() - i,
{
    if i < 0 || i >= text.len() {
        text.len() as int
    } else if text[i] == 10 {
        i
    } else {
        first_nl_from(text, i + 1)
    }
}

/// The indentation at `i`: how many spaces or tabs run from there.
pub open spec fn indent_from(text: Seq<u8>, i: int) -> int
    decreases text.len() - i,
{
    if i < 0 || i >= text.len() || !(text[i] == 32 || text[i] == 9) {
        0
    } else {
        1 + indent_from(text, i + 1)
    }
}

/// The newline position never precedes where the search started.
pub proof fn lemma_first_nl_bounds(text: Seq<u8>, i: int)
    requires
        0 <= i <= text.len(),
    ensures
        i <= first_nl_from(text, i) <= text.len(),
    decreases text.len() - i,
{
    if i < text.len() && text[i] != 10 {
        lemma_first_nl_bounds(text, i + 1);
    }
}

/// Scanning the lines from position `i` on: does some line's indentation
/// step differ from the previous line's by something other than zero or
/// four?
pub open spec fn scan_from(text: Seq<u8>, i: int, last: int) -> bool
    decreases text.len() + 1 - i
        via scan_from_decreases
{
    if i < 0 || i >= text.len() {
        false
    } else {
        let t = indent_from(text, i);
        let shift = if t >= last {
            t - last
        } else {
            last - t
        };
        if shift != 0 && shift != 4 {
            true
        } else {
            scan_from(text, first_nl_from(text, i) + 1, t)
        }
    }
}

#[via_fn]
proof fn scan_from_decreases(text: Seq<u8>, i: int, last: int) {
    if 0 <= i < text.len() {
        lemma_first_nl_bounds(text, i);
    }
}

/// Does the text's indentation move by a step other than zero or four
/// somewhere?
pub open spec fn spec_tab_flag(text: Seq<u8>) -> bool {
    scan_from(text, 0, 0)
}

fn find_nl(text: &Vec<u8>, from: usize) -> (r: usize)
    requires
        from <= text@.len(),
    ensures
        r == first_nl_from(text@, from as int),
        from <= r <= text@.len(),
{
    let n = text.len();
    let mut i: usize = from;
    while i < n
        invariant
            from <= i <= n,
            n == text@.len(),
            first_nl_from(text@, from as int) == first_nl_from(text@, i as int),
        decreases n - i,
    {
        if text[i] == 10 {
            return i;
        }
        i += 1;
    }
    n
}

fn indent_at(text: &Vec<u8>, from: usize) -> (r: usize)
    requires
        from <= text@.len(),
    ensures
        r == indent_from(text@, from as int),
        from + r <= text@.len(),
{
    let n = text.len();
    let mut i: usize = from;
    while i < n && (text[i] == 32 || text[i] == 9)
        invariant
            from <= i <= n,
            n == text@.len(),
            indent_from(text@, from as int) == i - from + indent_from(text@, i as int),
        decreases n - i,
    {
        i += 1;
    }
    i - from
}

/// Does the text's indentation move by a step other than zero or four
/// somewhere?
fn tab_flag(text: &Vec<u8>) -> (r: bool)
    ensures
        r == spec_tab_flag(text@),
{
    let n = text.len();
    let mut i: usize = 0;
    let mut last: usize = 0;
    while i < n
        invariant
            i <= n,
            n == text@.len(),
            last <= n,
            spec_tab_flag(text@) == scan_from(text@, i as int, last as int),
        decreases n - i,
    {
        let t = indent_at(text, i);
        let shift = if t >= last {
            t - last
        } else {
            last - t
        };
        if shift != 0 && shift != 4 {
            return true;
        }
        let nl = find_nl(text, i);
        proof {
            lemma_first_nl_bounds(text@, i as int);
        }
        last = t;
        if nl >= n {
            proof {
                assert(!scan_from(text@, nl + 1, last as int));
                assert(!scan_from(text@, n as int, last as int));
            }
            i = n;
        } else {
            i = nl + 1;
        }
    }
    false
}

/// What the style rule does at a node.
pub open spec fn pre_spec(node: Node, s: SpecCtx) -> SpecCtx {
    match node.kind {
        NodeKind::SourceUnit(_) => {
            if spec_tab_flag(s.text) {
                spec_push(Rule::Style, s, 8, None)
            } else {
                s
            }
        },
        NodeKind::VariableDeclaration(vd) => {
            let s1 = if vd.state_variable && !spec_starts_with(vd.name@, "s_"@) {
                spec_push(Rule::Style, s, 1, Some(node.src))
            } else {
                s
            };
            let s2 = if (vd.visibility == Visibility::Private || vd.visibility
                == Visibility::Internal) && !spec_starts_with(vd.name@, "_"@) {
                spec_push(Rule::Style, s1, 2, Some(node.src))
            } else {
                s1
            };
            if vd.declared_type is Some && (vd.declared_type->0.name@ == "int"@
                || vd.declared_type->0.name@ == "uint"@) {
                spec_push(Rule::Style, s2, 6, Some(node.src))
            } else {
                s2
            }
        },
        NodeKind::FunctionDefinition(fd) => {
            if (fd.visibility == Visibility::Private || fd.visibility == Visibility::Internal)
                && !spec_starts_with(fd.name@, "_"@) {
                spec_push(Rule::Style, s, 3, Some(node.src))
            } else {
                s
            }
        },
        NodeKind::ErrorDefinition(_) => {
            if !(exists|i: int|
                0 <= i < node.children@.len() && (#[trigger] node.children@[i]).kind
                    is VariableDeclaration) {
                spec_push(Rule::Style, s, 5, Some(node.src))
            } else {
                s
            }
        },
        _ => s,
    }
}

/// The rule reads declarations whole and does not walk into them.
pub open spec fn descends(node: Node) -> bool {
    !(node.kind is VariableDeclaration)
}

fn has_param_child(children: &Vec<Node>) -> (r: bool)
    ensures
        r == exists|i: int|
            0 <= i < children@.len() && (#[trigger] children@[i]).kind is VariableDeclaration,
{
    let n = children.len();
    let mut i: usize = 0;
    while i < n
        invariant
            i <= n,
            n == children@.len(),
            forall|k: int|
                0 <= k < i ==> !((#[trigger] children@[k]).kind is VariableDeclaration),
        decreases n - i,
    {
        if matches!(&children[i].kind, NodeKind::VariableDeclaration(_)) {
            return true;
        }
        i += 1;
    }
    false
}

/// The style rule's hook.
pub fn pre(node: &Node, ctx: &mut RuleCtx) -> (descend: bool)
    ensures
        final(ctx)@ == pre_spec(*node, old(ctx)@),
        descend == descends(*node),
{
    match &node.kind {
        NodeKind::SourceUnit(_) => {
            let flagged = tab_flag(&ctx.text);
            if flagged {
                push_finding(&Rule::Style, ctx, 8, None);
            }
            true
        },
        NodeKind::VariableDeclaration(vd) => {
            if vd.state_variable && !starts_with_str(vd.name.as_str(), "s_") {
                push_finding(&Rule::Style, ctx, 1, Some(node.src));
            }
            if (vd.visibility == Visibility::Private || vd.visibility == Visibility::Internal)
                && !starts_with_str(vd.name.as_str(), "_") {
                push_finding(&Rule::Style, ctx, 2, Some(node.src));
            }
            if let Some(tn) = &vd.declared_type {
                if str_eq(tn.name.as_str(), "int") || str_eq(tn.name.as_str(), "uint") {
                    push_finding(&Rule::Style, ctx, 6, Some(node.src));
                }
            }
            false
        },
        NodeKind::FunctionDefinition(fd) => {
            if (fd.visibility == Visibility::Private || fd.visibility == Visibility::Internal)
                && !starts_with_str(fd.name.as_str(), "_") {
                push_finding(&Rule::Style, ctx, 3, Some(node.src));
            }
            true
        },
        NodeKind::ErrorDefinition(_) => {
            if !has_param_child(&node.children) {
                push_finding(&Rule::Style, ctx, 5, Some(node.src));
            }
            true
        },
        _ => true,
    }
}

/// The style rule's catalog.
pub fn catalog() -> (r: Vec<(u64, FindingKey)>)
    ensures
        r@.len() == catalog_len(Rule::Style),
        forall|i: int| 0 <= i < r@.len() ==> (#[trigger] r@[i]).0 == i,
        forall|i: int| 0 <= i < r@.len() ==> (#[trigger] r@[i]).1.severity == Severity::Informal,
{
    let mut r: Vec<(u64, FindingKey)> = Vec::new();
    r.push(
        (
            0,
            FindingKey {
                summary: String::from_str("Consider using named mappings"),
                description: String::from_str(
                    "From 0.8.18, Solidity introduced named mappings. They make it much easier for pair of eyes to know what they are returning. Please consider using them if you can.",
                ),
                severity: Severity::Informal,
            },
        ),
    );
    r.push(
        (
            1,
            FindingKey {
                summary: String::from_str("Storage variables should start with `s_`"),
                description: String::from_str(
                    "Prepending all storage variables with a `s_` makes them easier to find them. Storage variables may be crucial for security and thus is a good code style recommendation.",
                ),
                severity: Severity::Informal,
            },
        ),
    );
    r.push(
        (
            2,
            FindingKey {
                summary: String::from_str(
                    "Non external/public variable should begin with an underscore",
                ),
                description: String::from_str(
                    "Any variable name that is not visible to the world should begin with an underscore because it facilitates readability of the code.",
                ),
                severity: Severity::Informal,
            },
        ),
    );
    r.push(
        (
            3,
            FindingKey {
                summary: String::from_str(
                    "Non external/public function names should begin with an underscore",
                ),
                description: String::from_str(
                    "Any function name that is not visible to the world should begin with an underscore because it facilitates readability of the code.",
                ),
                severity: Severity::Informal,
            },
        ),
    );
    r.push(
        (
            4,
            FindingKey {
                summary: String::from_str(
                    "Consider write the constants on the left part of the conditionals",
                ),
                description: String::from_str(
                    "Usually, some errors or typos may be done by writing the constant on the right part of a contional operator. This is because the human is rather used to compare a base to a term rather than the other way around.",
                ),
                severity: Severity::Informal,
            },
        ),
    );
    r.push(
        (
            5,
            FindingKey {
                summary: String::from_str("Avoid creating error without help"),
                description: String::from_str(
                    "It is considered better practice to include to parameters to custom errors because they are usually needed for clarity purposes.",
                ),
                severity: Severity::Informal,
            },
        ),
    );
    r.push(
        (
            6,
            FindingKey {
                summary: String::from_str("Avoid using `uint`, `int`, ..."),
                description: String::from_str(
                    "`uint` is not a very clear variable name, because it implicitely means uint256. Prefer using `uint256` instead.",
                ),
                severity: Severity::Informal,
            },
        ),
    );
    r.push(
        (
            7,
            FindingKey {
                summary: String::from_str("Consider writing `private` explicitely"),
                description: String::from_str(
                    "It is considered a better code practice to explicitely declare private variables. In Solidity, when the visibility of state variables is not specified, it is compiled as private.",
                ),
                severity: Severity::Informal,
            },
        ),
    );
    r.push(
        (
            8,
            FindingKey {
                summary: String::from_str("Indentation level"),
                description: String::from_str(
                    "From the Solidity Style Guide, a 4 spaces indentation level should be [preferred](https://docs.soliditylang.org/en/v0.8.17/style-guide.html#indentation).",
                ),
                severity: Severity::Informal,
            },
        ),
    );
    r
}

} // verus!
