//! The rule registry and the per-walk context.
//!
//! A rule is a tagged variant; its identity towards the result map is its
//! name, its catalog maps each finding code it may emit to a presentation,
//! and its behaviour is a hook per node kind in the dispatch of
//! [`crate::walker`].  Each dispatch pass owns one fresh [`RuleCtx`]:
//! rule-local accumulation state that never leaks between rules or trees.

mod abi;
mod assembly;
mod deprecated;
mod downcast;
mod erc20;
mod events;
mod immutable;
mod loops;
mod maths;
mod misc;
mod overflow;
mod proxy;
mod style;

pub use erc20::check_member;
pub use proxy::has_initializer;

use crate::ast::{Mutability, Node, NodeKind, Src};
use crate::findings::{rf_views, FindingKey, RawFinding, SpecRawFinding, Severity};
use crate::version::{Information, Version};
use vstd::prelude::*;

verus! {

/// The built-in detection rules.
#[derive(Clone, Copy, PartialEq, Eq, Structural, Debug)]
pub enum Rule {
    /// Flags every inline-assembly block, and assembly assignments fed by a
    /// call.
    AssemblyUsage,
    /// Flags assembly uses of opcodes that high-level code already offers.
    Assembly,
    /// Flags functions compiled before checked arithmetic existed.
    Overflow,
    /// Flags state variables never written outside a constructor.
    Immutable,
    /// Flags loops whose bound re-reads a storage variable.
    Loops,
    /// Flags multiplications and divisions by constant powers of two.
    Maths,
    /// Flags events without indexed or sender information.
    Events,
    /// Code-style advice.
    Style,
    /// Flags `abi.encodeWithSignature`/`abi.encodeWithSelector`.
    Abi,
    /// Flags `payable.transfer` and `payable.send`.
    Deprecated,
    /// Flags numeric downcasts without runtime checks.
    Downcast,
    /// Flags unsafe token operations.
    Erc20,
    /// Pragma hygiene and deprecated global helpers.
    Misc,
    /// Proxy-initialisation hazards.
    Proxy,
}

/// What a loop rule remembers about a declaration.
#[derive(Clone, Copy, Debug)]
pub struct VarInfo {
    pub state_variable: bool,
    pub mutability: Mutability,
}

/// The mutable state a rule owns for the duration of one tree walk.
pub struct RuleCtx {
    /// The findings pushed so far, in emission order.
    pub findings: Vec<RawFinding>,
    /// Declared state variables, with the range of their declaration.
    pub state_vars: Vec<(String, Src)>,
    /// Names assigned to outside any constructor.
    pub assigned: Vec<String>,
    /// Whether the walk currently sits inside a constructor.
    pub in_constructor: bool,
    /// Declaration id to declaration flags.
    pub vars_by_id: Vec<(u64, VarInfo)>,
    /// The unit's raw file text.
    pub text: Vec<u8>,
    /// The unit's metadata.
    pub info: Information,
}

/// The mathematical value of a [`RuleCtx`].
#[verifier::ext_equal]
pub struct SpecCtx {
    pub findings: Seq<SpecRawFinding>,
    pub state_vars: Seq<(Seq<char>, Src)>,
    pub assigned: Seq<Seq<char>>,
    pub in_constructor: bool,
    pub vars_by_id: Seq<(u64, VarInfo)>,
    pub text: Seq<u8>,
    pub name: Seq<char>,
    pub version: Version,
}

/// The values of the recorded state variables.
pub open spec fn sv_views(s: Seq<(String, Src)>) -> Seq<(Seq<char>, Src)> {
    Seq::new(s.len(), |i: int| (s[i].0@, s[i].1))
}

/// The values of the recorded assigned names.
pub open spec fn name_views(s: Seq<String>) -> Seq<Seq<char>> {
    Seq::new(s.len(), |i: int| s[i]@)
}

impl View for RuleCtx {
    type V = SpecCtx;

    open spec fn view(&self) -> SpecCtx {
        SpecCtx {
            findings: rf_views(self.findings@),
            state_vars: sv_views(self.state_vars@),
            assigned: name_views(self.assigned@),
            in_constructor: self.in_constructor,
            vars_by_id: self.vars_by_id@,
            text: self.text@,
            name: self.info.name@,
            version: self.info.version,
        }
    }
}

/// The fresh context a dispatch pass starts from.
pub open spec fn spec_init_ctx(name: Seq<char>, version: Version, text: Seq<u8>) -> SpecCtx {
    SpecCtx {
        findings: Seq::empty(),
        state_vars: Seq::empty(),
        assigned: Seq::empty(),
        in_constructor: false,
        vars_by_id: Seq::empty(),
        text,
        name,
        version,
    }
}

impl RuleCtx {
    /// A fresh context for one walk of one tree.
    pub fn new(info: Information, text: Vec<u8>) -> (r: RuleCtx)
        ensures
            r@ == spec_init_ctx(info.name@, info.version, text@),
    {
        let r = RuleCtx {
            findings: Vec::new(),
            state_vars: Vec::new(),
            assigned: Vec::new(),
            in_constructor: false,
            vars_by_id: Vec::new(),
            text,
            info,
        };
        proof {
            assert(rf_views(r.findings@) =~= Seq::<SpecRawFinding>::empty());
            assert(sv_views(r.state_vars@) =~= Seq::<(Seq<char>, Src)>::empty());
            assert(name_views(r.assigned@) =~= Seq::<Seq<char>>::empty());
        }
        r
    }
}

/// Each rule's name: the key its findings aggregate under.
pub open spec fn rule_name_spec(r: Rule) -> Seq<char> {
    match r {
        Rule::AssemblyUsage => "assembly"@,
        Rule::Assembly => "assembly"@,
        Rule::Overflow => "overflow"@,
        Rule::Immutable => "immutable"@,
        Rule::Loops => "loops"@,
        Rule::Maths => "maths"@,
        Rule::Events => "events"@,
        Rule::Style => "style"@,
        Rule::Abi => "abi"@,
        Rule::Deprecated => "deprecated"@,
        Rule::Downcast => "downcast"@,
        Rule::Erc20 => "erc20"@,
        Rule::Misc => "misc"@,
        Rule::Proxy => "proxy"@,
    }
}

/// The rule's registered name.
pub fn rule_name(r: &Rule) -> (n: String)
    ensures
        n@ == rule_name_spec(*r),
{
    match r {
        Rule::AssemblyUsage => String::from_str("assembly"),
        Rule::Assembly => String::from_str("assembly"),
        Rule::Overflow => String::from_str("overflow"),
        Rule::Immutable => String::from_str("immutable"),
        Rule::Loops => String::from_str("loops"),
        Rule::Maths => String::from_str("maths"),
        Rule::Events => String::from_str("events"),
        Rule::Style => String::from_str("style"),
        Rule::Abi => String::from_str("abi"),
        Rule::Deprecated => String::from_str("deprecated"),
        Rule::Downcast => String::from_str("downcast"),
        Rule::Erc20 => String::from_str("erc20"),
        Rule::Misc => String::from_str("misc"),
        Rule::Proxy => String::from_str("proxy"),
    }
}

/// How many codes each rule's catalog defines; the codes are `0..len`.
pub open spec fn catalog_len(r: Rule) -> u64 {
    match r {
        Rule::AssemblyUsage => 2,
        Rule::Assembly => 2,
        Rule::Overflow => 1,
        Rule::Immutable => 1,
        Rule::Loops => 1,
        Rule::Maths => 1,
        Rule::Events => 2,
        Rule::Style => 9,
        Rule::Abi => 1,
        Rule::Deprecated => 1,
        Rule::Downcast => 1,
        Rule::Erc20 => 4,
        Rule::Misc => 3,
        Rule::Proxy => 3,
    }
}

/// The severity each catalog assigns to a code; codes outside the catalog
/// fall back to informational, though no rule emits one.
pub open spec fn catalog_severity(r: Rule, code: u64) -> Severity {
    match r {
        Rule::AssemblyUsage => if code == 0 {
            Severity::Informal
        } else {
            Severity::Medium
        },
        Rule::Assembly => if code == 0 {
            Severity::Medium
        } else {
            Severity::Informal
        },
        Rule::Overflow => Severity::Low,
        Rule::Immutable => Severity::Gas,
        Rule::Loops => Severity::Gas,
        Rule::Maths => Severity::Gas,
        Rule::Events => Severity::Informal,
        Rule::Style => Severity::Informal,
        Rule::Abi => Severity::Low,
        Rule::Deprecated => Severity::Low,
        Rule::Downcast => Severity::Low,
        Rule::Erc20 => if code == 0 || code == 1 {
            Severity::Medium
        } else {
            Severity::Low
        },
        Rule::Misc => Severity::Low,
        Rule::Proxy => if code == 1 {
            Severity::Medium
        } else {
            Severity::Low
        },
    }
}

/// A context with one more finding appended for this rule.
pub open spec fn spec_push(r: Rule, s: SpecCtx, code: u64, src: Option<Src>) -> SpecCtx {
    SpecCtx {
        findings: s.findings.push(
            SpecRawFinding { name: rule_name_spec(r), code, src },
        ),
        ..s
    }
}

/// Append a finding for this rule; the code must exist in its catalog, an
/// engine invariant every hook discharges statically.
pub fn push_finding(r: &Rule, ctx: &mut RuleCtx, code: u64, src: Option<Src>)
    requires
        code < catalog_len(*r),
    ensures
        final(ctx)@ == spec_push(*r, old(ctx)@, code, src),
{
    let name = rule_name(r);
    self::push_finding_raw(ctx, RawFinding { name, code, src });
}

fn push_finding_raw(ctx: &mut RuleCtx, f: RawFinding)
    ensures
        final(ctx)@ == (SpecCtx { findings: old(ctx)@.findings.push(f@), ..old(ctx)@ }),
{
    ctx.findings.push(f);
    proof {
        assert(rf_views(ctx.findings@) =~= rf_views(old(ctx).findings@).push(
            ctx.findings@.last()@,
        ));
        assert(sv_views(ctx.state_vars@) =~= sv_views(old(ctx).state_vars@));
        assert(name_views(ctx.assigned@) =~= name_views(old(ctx).assigned@));
    }
}


/// Does this rule implement a hook for this node's kind?  For every kind a
/// rule does not handle, the dispatch falls through to the default
/// behaviour: leave the context alone and continue the walk into the
/// children.
pub open spec fn handles(r: Rule, node: Node) -> bool {
    match r {
        Rule::AssemblyUsage => node.kind is InlineAssembly,
        Rule::Assembly => node.kind is YulIdentifier,
        Rule::Overflow => node.kind is FunctionDefinition,
        Rule::Immutable => node.kind is VariableDeclaration || node.kind is FunctionDefinition
            || node.kind is Assignment || node.kind is SourceUnit,
        Rule::Loops => node.kind is VariableDeclaration || node.kind is ForStatement,
        Rule::Maths => node.kind is BinaryOperation,
        Rule::Events => node.kind is EventDefinition || node.kind is EmitStatement,
        Rule::Style => node.kind is SourceUnit || node.kind is VariableDeclaration || node.kind
            is FunctionDefinition || node.kind is ErrorDefinition,
        Rule::Abi => node.kind is MemberAccess,
        Rule::Deprecated => node.kind is MemberAccess,
        Rule::Downcast => node.kind is FunctionCall,
        Rule::Erc20 => node.kind is MemberAccess || node.kind is VariableDeclarationStatement,
        Rule::Misc => node.kind is PragmaDirective || node.kind is Identifier,
        Rule::Proxy => node.kind is ContractDefinition || node.kind is FunctionDefinition,
    }
}

/// Whether the walk continues into the node's children after this rule's
/// hook; the choice depends on the rule and the node alone.
pub open spec fn hook_descends(r: Rule, node: Node) -> bool {
    match r {
        Rule::AssemblyUsage => assembly::usage_descends(node),
        Rule::Assembly => true,
        Rule::Overflow => true,
        Rule::Immutable => true,
        Rule::Loops => loops::descends(node),
        Rule::Maths => maths::descends(node),
        Rule::Events => events::descends(node),
        Rule::Style => style::descends(node),
        Rule::Abi => true,
        Rule::Deprecated => deprecated::descends(node),
        Rule::Downcast => downcast::descends(node),
        Rule::Erc20 => true,
        Rule::Misc => true,
        Rule::Proxy => proxy::descends(node),
    }
}

/// What this rule's hook does before the node's children.
pub open spec fn hook_pre_spec(r: Rule, node: Node, s: SpecCtx) -> SpecCtx {
    match r {
        Rule::AssemblyUsage => assembly::usage_pre_spec(node, s),
        Rule::Assembly => assembly::opcode_pre_spec(node, s),
        Rule::Overflow => overflow::pre_spec(node, s),
        Rule::Immutable => immutable::pre_spec(node, s),
        Rule::Loops => loops::pre_spec(node, s),
        Rule::Maths => maths::pre_spec(node, s),
        Rule::Events => events::pre_spec(node, s),
        Rule::Style => style::pre_spec(node, s),
        Rule::Abi => abi::pre_spec(node, s),
        Rule::Deprecated => deprecated::pre_spec(node, s),
        Rule::Downcast => downcast::pre_spec(node, s),
        Rule::Erc20 => erc20::pre_spec(node, s),
        Rule::Misc => misc::pre_spec(node, s),
        Rule::Proxy => proxy::pre_spec(node, s),
    }
}

/// What this rule's hook does after the node's children.
pub open spec fn hook_post_spec(r: Rule, node: Node, s: SpecCtx) -> SpecCtx {
    match r {
        Rule::Immutable => immutable::post_spec(node, s),
        _ => s,
    }
}

/// Run this rule's hook for a node, before its children; says whether the
/// walk descends.
pub fn hook_pre(r: &Rule, node: &Node, ctx: &mut RuleCtx) -> (descend: bool)
    ensures
        final(ctx)@ == hook_pre_spec(*r, *node, old(ctx)@),
        descend == hook_descends(*r, *node),
{
    match r {
        Rule::AssemblyUsage => assembly::usage_pre(node, ctx),
        Rule::Assembly => assembly::opcode_pre(node, ctx),
        Rule::Overflow => overflow::pre(node, ctx),
        Rule::Immutable => immutable::pre(node, ctx),
        Rule::Loops => loops::pre(node, ctx),
        Rule::Maths => maths::pre(node, ctx),
        Rule::Events => events::pre(node, ctx),
        Rule::Style => style::pre(node, ctx),
        Rule::Abi => abi::pre(node, ctx),
        Rule::Deprecated => deprecated::pre(node, ctx),
        Rule::Downcast => downcast::pre(node, ctx),
        Rule::Erc20 => erc20::pre(node, ctx),
        Rule::Misc => misc::pre(node, ctx),
        Rule::Proxy => proxy::pre(node, ctx),
    }
}

/// Run this rule's hook for a node, after its children.
pub fn hook_post(r: &Rule, node: &Node, ctx: &mut RuleCtx)
    ensures
        final(ctx)@ == hook_post_spec(*r, *node, old(ctx)@),
{
    match r {
        Rule::Immutable => immutable::post(node, ctx),
        _ => {},
    }
}

/// Default continuation: at a node whose kind a rule does not handle, the
/// hook leaves the context alone and the walk continues into the children,
/// so no node kind can silently fall out of a rule's traversal.
pub proof fn lemma_default_hooks(r: Rule, node: Node, s: SpecCtx)
    requires
        !handles(r, node),
    ensures
        hook_descends(r, node),
        hook_pre_spec(r, node, s) == s,
        hook_post_spec(r, node, s) == s,
{
}

/// The rule's catalog: code, presentation and severity of everything it can
/// emit.  The codes are dense: entry `i` carries code `i`.
pub fn catalog(r: &Rule) -> (c: Vec<(u64, FindingKey)>)
    ensures
        c@.len() == catalog_len(*r),
        forall|i: int| 0 <= i < c@.len() ==> (#[trigger] c@[i]).0 == i,
        forall|i: int|
            0 <= i < c@.len() ==> (#[trigger] c@[i]).1.severity == catalog_severity(
                *r,
                i as u64,
            ),
{
    match r {
        Rule::AssemblyUsage => assembly::usage_catalog(),
        Rule::Assembly => assembly::opcode_catalog(),
        Rule::Overflow => overflow::catalog(),
        Rule::Immutable => immutable::catalog(),
        Rule::Loops => loops::catalog(),
        Rule::Maths => maths::catalog(),
        Rule::Events => events::catalog(),
        Rule::Style => style::catalog(),
        Rule::Abi => abi::catalog(),
        Rule::Deprecated => deprecated::catalog(),
        Rule::Downcast => downcast::catalog(),
        Rule::Erc20 => erc20::catalog(),
        Rule::Misc => misc::catalog(),
        Rule::Proxy => proxy::catalog(),
    }
}


/// Every finding in the list is this rule's: its code exists in the rule's
/// catalog and it carries the rule's name.
pub open spec fn findings_ok(r: Rule, fs: Seq<SpecRawFinding>) -> bool {
    forall|i: int|
        0 <= i < fs.len() ==> (#[trigger] fs[i]).code < catalog_len(r) && fs[i].name
            == rule_name_spec(r)
}

/// Appending a cataloged finding keeps the list this rule's.
pub proof fn lemma_spec_push_ok(r: Rule, s: SpecCtx, code: u64, src: Option<Src>)
    requires
        findings_ok(r, s.findings),
        code < catalog_len(r),
    ensures
        findings_ok(r, spec_push(r, s, code, src).findings),
{
    let fs = spec_push(r, s, code, src).findings;
    assert forall|i: int|
        0 <= i < fs.len() implies (#[trigger] fs[i]).code < catalog_len(r) && fs[i].name
        == rule_name_spec(r) by {
        if i < s.findings.len() {
            assert(fs[i] == s.findings[i]);
        }
    }
}


/// Hooks only append the rule's own cataloged findings: whatever else of
/// its private state a hook touches, the findings list stays this rule's.
pub proof fn lemma_hook_pre_ok(r: Rule, node: Node, s: SpecCtx)
    requires
        findings_ok(r, s.findings),
    ensures
        findings_ok(r, hook_pre_spec(r, node, s).findings),
{
    match r {
        Rule::AssemblyUsage => {
            if node.kind is InlineAssembly {
                lemma_spec_push_ok(r, s, 0, Some(node.src));
                assembly::lemma_scan_seq_pre_ok(node, s);
            }
        },
        Rule::Assembly => {
            match node.kind {
                NodeKind::YulIdentifier(y) => {
                    if assembly::spec_flagged_opcode(y.name@) {
                        lemma_spec_push_ok(r, s, 1, Some(node.src));
                        if y.name@ == "extcodesize"@ {
                            lemma_spec_push_ok(
                                r,
                                spec_push(r, s, 1, Some(node.src)),
                                0,
                                Some(node.src),
                            );
                        }
                    }
                },
                _ => {},
            }
        },
        Rule::Overflow => {
            match node.kind {
                NodeKind::FunctionDefinition(_) => {
                    lemma_spec_push_ok(r, s, 0, None);
                },
                _ => {},
            }
        },
        Rule::Immutable => {},
        Rule::Loops => {
            match node.kind {
                NodeKind::ForStatement => {
                    lemma_spec_push_ok(r, s, 0, Some(node.src));
                },
                _ => {},
            }
        },
        Rule::Maths => {
            match node.kind {
                NodeKind::BinaryOperation(_) => {
                    lemma_spec_push_ok(r, s, 0, Some(node.src));
                },
                _ => {},
            }
        },
        Rule::Events => {
            match node.kind {
                NodeKind::EventDefinition(_) => {
                    lemma_spec_push_ok(r, s, 1, Some(node.src));
                },
                NodeKind::EmitStatement => {
                    lemma_spec_push_ok(r, s, 0, Some(node.src));
                },
                _ => {},
            }
        },
        Rule::Style => {
            match node.kind {
                NodeKind::SourceUnit(_) => {
                    lemma_spec_push_ok(r, s, 8, None);
                },
                NodeKind::VariableDeclaration(vd) => {
                    let s1 = if vd.state_variable && !crate::strutil::spec_starts_with(
                        vd.name@,
                        "s_"@,
                    ) {
                        lemma_spec_push_ok(r, s, 1, Some(node.src));
                        spec_push(r, s, 1, Some(node.src))
                    } else {
                        s
                    };
                    let s2 = if (vd.visibility == crate::ast::Visibility::Private
                        || vd.visibility == crate::ast::Visibility::Internal)
                        && !crate::strutil::spec_starts_with(vd.name@, "_"@) {
                        lemma_spec_push_ok(r, s1, 2, Some(node.src));
                        spec_push(r, s1, 2, Some(node.src))
                    } else {
                        s1
                    };
                    lemma_spec_push_ok(r, s2, 6, Some(node.src));
                },
                NodeKind::FunctionDefinition(_) => {
                    lemma_spec_push_ok(r, s, 3, Some(node.src));
                },
                NodeKind::ErrorDefinition(_) => {
                    lemma_spec_push_ok(r, s, 5, Some(node.src));
                },
                _ => {},
            }
        },
        Rule::Abi => {
            match node.kind {
                NodeKind::MemberAccess(_) => {
                    lemma_spec_push_ok(r, s, 0, Some(node.src));
                },
                _ => {},
            }
        },
        Rule::Deprecated => {
            match node.kind {
                NodeKind::MemberAccess(_) => {
                    lemma_spec_push_ok(r, s, 0, Some(node.src));
                },
                _ => {},
            }
        },
        Rule::Downcast => {
            match node.kind {
                NodeKind::FunctionCall(_) => {
                    lemma_spec_push_ok(r, s, 0, Some(node.src));
                },
                _ => {},
            }
        },
        Rule::Erc20 => {
            match node.kind {
                NodeKind::MemberAccess(_) => {
                    erc20::lemma_check_member_codes(node);
                    erc20::lemma_push_pairs_ok(s, erc20::spec_check_member(node));
                },
                NodeKind::VariableDeclarationStatement => {
                    lemma_spec_push_ok(r, s, 3, Some(node.src));
                },
                _ => {},
            }
        },
        Rule::Misc => {
            match node.kind {
                NodeKind::PragmaDirective(p) => {
                    let s1 = if crate::version::spec_unspecific_version(p.literals@) {
                        lemma_spec_push_ok(r, s, 0, Some(node.src));
                        spec_push(r, s, 0, Some(node.src))
                    } else {
                        s
                    };
                    lemma_spec_push_ok(r, s1, 2, Some(node.src));
                },
                NodeKind::Identifier(_) => {
                    lemma_spec_push_ok(r, s, 1, Some(node.src));
                },
                _ => {},
            }
        },
        Rule::Proxy => {
            match node.kind {
                NodeKind::ContractDefinition(_) => {
                    lemma_spec_push_ok(r, s, 2, None);
                },
                NodeKind::FunctionDefinition(_) => {
                    lemma_spec_push_ok(r, s, 0, Some(node.src));
                    lemma_spec_push_ok(r, spec_push(r, s, 0, Some(node.src)), 1, Some(node.src));
                },
                _ => {},
            }
        },
    }
}

/// Post hooks only append the rule's own cataloged findings too.
pub proof fn lemma_hook_post_ok(r: Rule, node: Node, s: SpecCtx)
    requires
        findings_ok(r, s.findings),
    ensures
        findings_ok(r, hook_post_spec(r, node, s).findings),
{
    match r {
        Rule::Immutable => {
            match node.kind {
                NodeKind::SourceUnit(_) => {
                    immutable::lemma_unassigned_ok(s.state_vars, s.assigned);
                    let whole = hook_post_spec(r, node, s).findings;
                    let emitted = immutable::spec_unassigned_findings(s.state_vars, s.assigned);
                    assert forall|i: int|
                        0 <= i < whole.len() implies (#[trigger] whole[i]).code < catalog_len(r)
                        && whole[i].name == rule_name_spec(r) by {
                        if i < s.findings.len() {
                            assert(whole[i] == s.findings[i]);
                        } else {
                            assert(whole[i] == emitted[i - s.findings.len()]);
                        }
                    }
                },
                _ => {},
            }
        },
        _ => {},
    }
}

} // verus!
