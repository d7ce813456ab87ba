//! The maths rule: multiplying or dividing by a constant power of two can
//! be done with a bit shift, which costs less gas.

use crate::ast::{BinaryOperator, Node, NodeKind};
use crate::findings::{FindingKey, Severity};
use crate::rules::{catalog_len, push_finding, spec_push, Rule, RuleCtx, SpecCtx};
use crate::strutil::{all_digits, parse_u128, spec_starts_with, starts_with_str, str_to_nat};
use crate::utils::byteslib::{is_power_of_2, spec_is_power_of_2};
use vstd::prelude::*;

verus! {

/// Does this type string denote an integer constant that is a power of two
/// small enough to read?
pub open spec fn spec_power_of_two_const(ts: Seq<char>) -> bool {
    let p = "int_const "@;
    &&& spec_starts_with(ts, p)
    &&& ts.skip(p.len() as int).len() > 0
    &&& all_digits(ts.skip(p.len() as int))
    &&& str_to_nat(ts.skip(p.len() as int)) <= u128::MAX
    &&& spec_is_power_of_2(str_to_nat(ts.skip(p.len() as int)) as u128)
}

/// Does this type string denote a power-of-two constant?
fn power_of_two_const(ts: &str) -> (r: bool)
    ensures
        r == spec_power_of_two_const(ts@),
{
    if !starts_with_str(ts, "int_const ") {
        return false;
    }
    let plen = "int_const ".unicode_len();
    let rest = ts.substring_char(plen, ts.unicode_len());
    proof {
        assert(rest@ =~= ts@.skip("int_const "@.len() as int));
    }
    match parse_u128(rest) {
        Some(v) => is_power_of_2(v),
        None => false,
    }
}

/// What the maths rule does at a node: a multiplication or division whose
/// right-hand side is a power-of-two literal gets a finding.
pub open spec fn pre_spec(node: Node, s: SpecCtx) -> SpecCtx {
    match node.kind {
        NodeKind::BinaryOperation(bo) => {
            if (bo.operator == BinaryOperator::Mul || bo.operator == BinaryOperator::Div)
                && node.children@.len() == 2 && node.children@[1].kind is Literal
                && node.children@[1].kind->Literal_0.type_descriptions.type_string is Some
                && spec_power_of_two_const(
                node.children@[1].kind->Literal_0.type_descriptions.type_string->0@,
            ) {
                spec_push(Rule::Maths, s, 0, Some(node.src))
            } else {
                s
            }
        },
        _ => s,
    }
}

/// The rule stops at binary operations: the operands are read here.
pub open spec fn descends(node: Node) -> bool {
    !(node.kind is BinaryOperation)
}

/// The maths rule's hook.
pub fn pre(node: &Node, ctx: &mut RuleCtx) -> (descend: bool)
    ensures
        final(ctx)@ == pre_spec(*node, old(ctx)@),
        descend == descends(*node),
{
    match &node.kind {
        NodeKind::BinaryOperation(bo) => {
            if (bo.operator == BinaryOperator::Mul || bo.operator == BinaryOperator::Div)
                && node.children.len() == 2 {
                if let NodeKind::Literal(lit) = &node.children[1].kind {
                    if let Some(ts) = &lit.type_descriptions.type_string {
                        if power_of_two_const(ts.as_str()) {
                            push_finding(&Rule::Maths, ctx, 0, Some(node.src));
                        }
                    }
                }
            }
            false
        },
        _ => true,
    }
}

/// The maths rule's catalog.
pub fn catalog() -> (r: Vec<(u64, FindingKey)>)
    ensures
        r@.len() == catalog_len(Rule::Maths),
        forall|i: int| 0 <= i < r@.len() ==> (#[trigger] r@[i]).0 == i,
        r@[0].1.severity == Severity::Gas,
{
    let mut r: Vec<(u64, FindingKey)> = Vec::new();
    r.push(
        (
            0,
            FindingKey {
                summary: String::from_str("Bitwise shifting operator can be used"),
                description: String::from_str(
                    "When multiplying or dividing by a constant that is a multiple of 2, it might be worth to use bit shifts. These opcodes are cheaper because they are more straightforward for computers.",
                ),
                severity: Severity::Gas,
            },
        ),
    );
    r
}

} // verus!
