//! The walker: the generic dispatch pass of one rule over one tree, the
//! conversion of raw findings into located findings, and the orchestrator
//! that runs every registered rule over every compiled unit and aggregates
//! the results.
//!
//! The dispatch protocol is a depth-first, pre-order walk: at every node
//! the active rule's hook runs first, then — unless the hook declined —
//! the children are walked left to right, then the rule's post hook runs.
//! A rule with no hook for a node's kind falls through to the default
//! behaviour, which descends, so narrow rules still cover the whole tree.

use crate::ast::{Node, Src};
use crate::findings::{AllFindings, MetaFinding, SpecMetaFinding, SpecRawFinding};
use crate::rules::{
    catalog, catalog_severity, hook_descends, hook_post, hook_post_spec, hook_pre,
    hook_pre_spec, rule_name, rule_name_spec, spec_init_ctx, Rule, RuleCtx, SpecCtx,
};
use crate::solidity::{
    build_source_map, get_finding_content, get_position, line_starts, spec_excerpt,
    spec_position_of, starts_match,
};
use crate::version::{Information, Version};
use vstd::prelude::*;

verus! {

/// One dispatch pass of a rule over the tree rooted at `node`, starting
/// from context `s`: the hook, then — when the hook lets the walk
/// continue — the children in order, then the post hook.
pub open spec fn walk_spec(rule: Rule, node: Node, s: SpecCtx) -> SpecCtx
    decreases node,
{
    let s1 = hook_pre_spec(rule, node, s);
    let s2 = if hook_descends(rule, node) {
        walk_seq_spec(rule, node.children@, s1)
    } else {
        s1
    };
    hook_post_spec(rule, node, s2)
}

/// A walk over a forest, left to right.
pub open spec fn walk_seq_spec(rule: Rule, ns: Seq<Node>, s: SpecCtx) -> SpecCtx
    decreases ns,
{
    if ns.len() == 0 {
        s
    } else {
        walk_spec(rule, ns.last(), walk_seq_spec(rule, ns.drop_last(), s))
    }
}

/// Walk one tree for one rule, accumulating into the rule's context.
pub fn walk(rule: &Rule, node: &Node, ctx: &mut RuleCtx)
    ensures
        final(ctx)@ == walk_spec(*rule, *node, old(ctx)@),
    decreases *node,
{
    let descend = hook_pre(rule, node, ctx);
    let ghost s1 = ctx@;
    if descend {
        let n = node.children.len();
        let mut i: usize = 0;
        proof {
            assert(node.children@.take(0) =~= Seq::<Node>::empty());
        }
        while i < n
            invariant
                i <= n,
                n == node.children@.len(),
                ctx@ == walk_seq_spec(*rule, node.children@.take(i as int), s1),
            decreases n - i,
        {
            proof {
                assert(node.children@.take(i + 1).drop_last() =~= node.children@.take(
                    i as int,
                ));
                assert(node.children@.take(i + 1).last() == node.children@[i as int]);
                assert(decreases_to!(*node => node.children@[i as int]));
            }
            walk(rule, &node.children[i], ctx);
            i += 1;
        }
        proof {
            assert(node.children@.take(n as int) =~= node.children@);
        }
    }
    hook_post(rule, node, ctx);
}

/// The raw findings one dispatch pass of `rule` produces over the tree
/// rooted at `root`, for a unit with the given name, version and file text.
pub open spec fn spec_pass(
    rule: Rule,
    root: Node,
    name: Seq<char>,
    version: Version,
    text: Seq<u8>,
) -> Seq<SpecRawFinding> {
    walk_spec(rule, root, spec_init_ctx(name, version, text)).findings
}

/// A raw finding resolved against a unit's file text: the line, column and
/// excerpt of its byte range.  A finding without a range, or one whose
/// range has no start, sits at the origin with an empty excerpt, as does
/// every finding of a unit whose file text is unavailable.  An offset past
/// the text clamps to the text's end — the last line, at its final
/// boundary column — rather than erroring: a wrong position must never
/// abort a run.
pub open spec fn spec_locate(
    rule: Rule,
    f: SpecRawFinding,
    file: Seq<char>,
    text: Seq<u8>,
) -> SpecMetaFinding {
    let located = match f.src {
        Some(src) => match src.start {
            Some(start) => {
                let clamped = if start <= text.len() {
                    start as int
                } else {
                    text.len() as int
                };
                let pos = spec_position_of(text, clamped);
                let len = match src.length {
                    Some(l) => l as int,
                    None => 0,
                };
                (pos.0, pos.1, spec_excerpt(text, start as int, len))
            },
            None => (0int, 0int, Seq::<u8>::empty()),
        },
        None => (0int, 0int, Seq::<u8>::empty()),
    };
    SpecMetaFinding {
        name: f.name,
        code: f.code,
        src: f.src,
        severity: catalog_severity(rule, f.code),
        file,
        line: located.0,
        position: located.1,
        content: located.2,
    }
}

/// A whole pass's findings, located in emission order.
pub open spec fn spec_locate_all(
    rule: Rule,
    fs: Seq<SpecRawFinding>,
    file: Seq<char>,
    text: Seq<u8>,
) -> Seq<SpecMetaFinding> {
    Seq::new(fs.len(), |i: int| spec_locate(rule, fs[i], file, text))
}

/// Everything one rule contributes for one unit: its pass over the tree,
/// located against the unit's file text.
pub open spec fn spec_unit_rule_findings(
    rule: Rule,
    root: Node,
    name: Seq<char>,
    version: Version,
    text: Seq<u8>,
) -> Seq<SpecMetaFinding> {
    spec_locate_all(rule, spec_pass(rule, root, name, version, text), name, text)
}

/// The severity a rule's catalog assigns to a code.
fn severity_of(rule: &Rule, code: u64) -> (r: crate::findings::Severity)
    ensures
        r == catalog_severity(*rule, code),
{
    let cat = catalog(rule);
    if code < cat.len() as u64 {
        let entry = &cat[code as usize];
        entry.1.severity
    } else {
        match rule {
            Rule::AssemblyUsage => crate::findings::Severity::Medium,
            Rule::Assembly => crate::findings::Severity::Informal,
            Rule::Overflow => crate::findings::Severity::Low,
            Rule::Immutable => crate::findings::Severity::Gas,
            Rule::Loops => crate::findings::Severity::Gas,
            Rule::Maths => crate::findings::Severity::Gas,
            Rule::Events => crate::findings::Severity::Informal,
            Rule::Style => crate::findings::Severity::Informal,
            Rule::Abi => crate::findings::Severity::Low,
            Rule::Deprecated => crate::findings::Severity::Low,
            Rule::Downcast => crate::findings::Severity::Low,
            Rule::Erc20 => crate::findings::Severity::Low,
            Rule::Misc => crate::findings::Severity::Low,
            Rule::Proxy => crate::findings::Severity::Low,
        }
    }
}

fn copy_bytes(v: &Vec<u8>) -> (r: Vec<u8>)
    ensures
        r@ == v@,
{
    let mut r: Vec<u8> = Vec::new();
    let n = v.len();
    let mut i: usize = 0;
    while i < n
        invariant
            i <= n,
            n == v@.len(),
            r@ == v@.take(i as int),
        decreases n - i,
    {
        r.push(v[i]);
        proof {
            assert(r@ =~= v@.take(i + 1));
        }
        i += 1;
    }
    proof {
        assert(v@.take(n as int) =~= v@);
    }
    r
}

/// Run one rule's dispatch pass over one tree, resolve every raw finding
/// against the unit's file text, and merge the located findings into the
/// run-wide result map under the rule's name, append-only.
pub fn visit_source(
    source: &Node,
    rule: &Rule,
    info: &Information,
    text: &Vec<u8>,
    findings: &mut AllFindings,
)
    requires
        old(findings).wf(),
    ensures
        final(findings).wf(),
        final(findings)@ == old(findings)@.insert(
            rule_name_spec(*rule),
            (if old(findings)@.contains_key(rule_name_spec(*rule)) {
                old(findings)@[rule_name_spec(*rule)]
            } else {
                Seq::empty()
            }) + spec_unit_rule_findings(*rule, *source, info.name@, info.version, text@),
        ),
{
    let unit_info = Information { name: info.name.clone(), version: info.version };
    let mut ctx = RuleCtx::new(unit_info, copy_bytes(text));
    walk(rule, source, &mut ctx);
    let ghost raw = spec_pass(*rule, *source, info.name@, info.version, text@);
    proof {
        assert(ctx@.findings == raw);
    }

    let ls = build_source_map(text);
    let name = rule_name(rule);
    let cat = catalog(rule);
    let mut located: Vec<MetaFinding> = Vec::new();
    let n = ctx.findings.len();
    let mut i: usize = 0;
    proof {
        assert(crate::findings::rf_views(ctx.findings@).len() == raw.len());
        assert(crate::findings::mf_views(located@) =~= spec_locate_all(
            *rule,
            raw,
            info.name@,
            text@,
        ).take(0));
    }
    while i < n
        invariant
            i <= n,
            n == ctx.findings@.len(),
            crate::findings::rf_views(ctx.findings@) == raw,
            starts_match(ls@, line_starts(text@)),
            crate::solidity::index_wf(ls@),
            cat@.len() > 0 ==> cat@.len() == crate::rules::catalog_len(*rule),
            forall|k: int| 0 <= k < cat@.len() ==> (#[trigger] cat@[k]).0 == k,
            forall|k: int|
                0 <= k < cat@.len() ==> (#[trigger] cat@[k]).1.severity == catalog_severity(
                    *rule,
                    k as u64,
                ),
            name@ == rule_name_spec(*rule),
            crate::findings::mf_views(located@) == spec_locate_all(
                *rule,
                raw,
                info.name@,
                text@,
            ).take(i as int),
        decreases n - i,
    {
        let f = &ctx.findings[i];
        let ghost fv = raw[i as int];
        proof {
            assert(f@ == crate::findings::rf_views(ctx.findings@)[i as int]);
        }
        let mut line: usize = 0;
        let mut position: usize = 0;
        let mut content: Vec<u8> = Vec::new();
        match &f.src {
            Some(src) => {
                match src.start {
                    Some(start) => {
                        let tlen = text.len();
                        let clamped = if start <= tlen {
                            start
                        } else {
                            tlen
                        };
                        let pos = get_position(clamped, &ls);
                        line = pos.0;
                        position = pos.1;
                        let length = match src.length {
                            Some(l) => l,
                            None => 0,
                        };
                        content = get_finding_content(text, start, length);
                        proof {
                            crate::solidity::lemma_count_le_match(
                                ls@,
                                line_starts(text@),
                                clamped,
                            );
                            assert(line as int == spec_position_of(text@, clamped as int).0);
                            assert(position as int == spec_position_of(text@, clamped as int).1);
                            assert(content@ == spec_excerpt(
                                text@,
                                start as int,
                                (match fv.src->0.length {
                                    Some(l) => l as int,
                                    None => 0,
                                }),
                            ));
                        }
                    },
                    None => {},
                }
            },
            None => {},
        }
        let severity = severity_of(rule, f.code);
        let (summary, description) = if (f.code as usize) < cat.len() {
            let entry = &cat[f.code as usize];
            (entry.1.summary.clone(), entry.1.description.clone())
        } else {
            (String::new(), String::new())
        };
        let meta = MetaFinding {
            name: f.name.clone(),
            code: f.code,
            src: f.src,
            summary,
            description,
            severity,
            file: info.name.clone(),
            line,
            position,
            content,
        };
        proof {
            assert(meta@ == spec_locate(*rule, fv, info.name@, text@));
        }
        let ghost lv = crate::findings::mf_views(located@);
        located.push(meta);
        proof {
            assert(crate::findings::mf_views(located@) =~~= lv.push(meta@));
            assert(lv.push(meta@) =~~= spec_locate_all(*rule, raw, info.name@, text@).take(
                i + 1,
            ));
        }
        i += 1;
    }
    proof {
        assert(spec_locate_all(*rule, raw, info.name@, text@).take(n as int) =~= spec_locate_all(
            *rule,
            raw,
            info.name@,
            text@,
        ));
    }
    findings.merge(&name, located);
}


/// One compiled unit handed in by the external compiler: its artifact
/// identifier, the path of its source file, the compiler version it was
/// built with, and its tree — absent when compilation produced none, which
/// the orchestrator treats as fatal.
pub struct CompiledUnit {
    pub identifier: String,
    pub source_path: String,
    pub version: Version,
    pub ast: Option<Node>,
}

/// A source file's raw text, keyed by its path.
pub struct SourceMapEntry {
    pub path: String,
    pub content: Vec<u8>,
}

/// Why a run aborted.
#[derive(Debug)]
pub enum AnalysisError {
    /// A supplied unit has no parsed tree: the caller handed in a failed
    /// artifact.  The payload names the unit.
    MissingAst(String),
    /// Two registered rules share a name; rule names are the keys of the
    /// result map and must be unique per run.
    DuplicateRuleName(String),
}

/// The text recorded for a path: the first matching entry, or nothing for
/// a file whose text is unavailable.
pub open spec fn spec_source_text(sm: Seq<SourceMapEntry>, path: Seq<char>) -> Seq<u8>
    decreases sm.len(),
{
    if sm.len() == 0 {
        Seq::empty()
    } else if sm.first().path@ == path {
        sm.first().content@
    } else {
        spec_source_text(sm.drop_first(), path)
    }
}

fn find_source<'a>(sm: &'a Vec<SourceMapEntry>, path: &str) -> (r: Option<&'a Vec<u8>>)
    ensures
        r is Some ==> r->0@ == spec_source_text(sm@, path@),
        r is None ==> spec_source_text(sm@, path@) == Seq::<u8>::empty(),
{
    let n = sm.len();
    let mut i: usize = 0;
    proof {
        assert(sm@.skip(0) =~= sm@);
    }
    while i < n
        invariant
            i <= n,
            n == sm@.len(),
            spec_source_text(sm@, path@) == spec_source_text(sm@.skip(i as int), path@),
        decreases n - i,
    {
        proof {
            assert(sm@.skip(i as int).first() == sm@[i as int]);
            assert(sm@.skip(i as int).drop_first() =~= sm@.skip(i + 1));
        }
        if crate::strutil::str_eq(sm[i].path.as_str(), path) {
            return Some(&sm[i].content);
        }
        i += 1;
    }
    proof {
        assert(sm@.skip(n as int) =~= Seq::<SourceMapEntry>::empty());
    }
    None
}

/// Where the file name of a path begins: right after its last separator.
pub open spec fn spec_name_start(p: Seq<char>) -> int
    decreases p.len(),
{
    if p.len() == 0 {
        0
    } else if p.last() == '/' {
        p.len() as int
    } else {
        spec_name_start(p.drop_last())
    }
}

/// The unit's display name: the path's file name, with a trailing `.sol`
/// removed.
pub open spec fn spec_file_stem(p: Seq<char>) -> Seq<char> {
    let name = p.skip(spec_name_start(p));
    if crate::strutil::spec_ends_with(name, ".sol"@) {
        name.take(name.len() - 4)
    } else {
        name
    }
}

proof fn lemma_name_start_bounds(p: Seq<char>)
    ensures
        0 <= spec_name_start(p) <= p.len(),
    decreases p.len(),
{
    if p.len() > 0 && p.last() != '/' {
        lemma_name_start_bounds(p.drop_last());
    }
}

/// Where the file name of a path begins.
pub fn name_start(path: &str) -> (r: usize)
    ensures
        r == spec_name_start(path@),
        r <= path@.len(),
{
    let n = path.unicode_len();
    let mut start: usize = n;
    proof {
        assert(path@.take(n as int) =~= path@);
        lemma_name_start_bounds(path@);
    }
    while start > 0
        invariant
            start <= n,
            n == path@.len(),
            spec_name_start(path@) == spec_name_start(path@.take(start as int)),
        decreases start,
    {
        proof {
            assert(path@.take(start as int).drop_last() =~= path@.take(start - 1));
            assert(path@.take(start as int).last() == path@[start - 1]);
        }
        if path.get_char(start - 1) == '/' {
            proof {
                assert(spec_name_start(path@.take(start as int)) == start);
            }
            return start;
        }
        start -= 1;
    }
    proof {
        assert(path@.take(0) =~= Seq::<char>::empty());
    }
    0
}

/// The display name a path denotes.
pub fn file_stem(path: &str) -> (r: String)
    ensures
        r@ == spec_file_stem(path@),
{
    let n = path.unicode_len();
    let start = name_start(path);
    let name = path.substring_char(start, n);
    proof {
        assert(name@ =~= path@.skip(spec_name_start(path@)));
    }
    let name_len = name.unicode_len();
    if crate::strutil::ends_with_str(name, ".sol") {
        proof {
            reveal_strlit(".sol");
        }
        let stem = name.substring_char(0, name_len - 4);
        proof {
            assert(stem@ =~= name@.take(name@.len() - 4));
        }
        String::from_str(stem)
    } else {
        String::from_str(name)
    }
}

/// The path recorded on a unit's tree root, or nothing to go by.
pub open spec fn spec_unit_ast_path(u: CompiledUnit) -> Seq<char> {
    match u.ast {
        Some(root) => match root.kind {
            crate::ast::NodeKind::SourceUnit(su) => su.absolute_path@,
            _ => Seq::empty(),
        },
        None => Seq::empty(),
    }
}

/// Every registered rule's pass over one unit, merged into the result map
/// in registration order.
pub open spec fn spec_rules_merge(
    rules: Seq<Rule>,
    root: Node,
    fname: Seq<char>,
    version: Version,
    text: Seq<u8>,
    acc: Map<Seq<char>, Seq<SpecMetaFinding>>,
) -> Map<Seq<char>, Seq<SpecMetaFinding>>
    decreases rules.len(),
{
    if rules.len() == 0 {
        acc
    } else {
        let m = spec_rules_merge(rules.drop_last(), root, fname, version, text, acc);
        let key = rule_name_spec(rules.last());
        m.insert(
            key,
            (if m.contains_key(key) {
                m[key]
            } else {
                Seq::empty()
            }) + spec_unit_rule_findings(rules.last(), root, fname, version, text),
        )
    }
}

/// The orchestrator's run, from unit `i` on: a unit without a tree aborts
/// with its identifier; a unit whose tree identity was already processed is
/// skipped; every other unit has all rules run over it and their findings
/// merged, append-only.
pub open spec fn spec_run_from(
    units: Seq<CompiledUnit>,
    i: int,
    rules: Seq<Rule>,
    sm: Seq<SourceMapEntry>,
    seen: Seq<u64>,
    acc: Map<Seq<char>, Seq<SpecMetaFinding>>,
) -> Result<Map<Seq<char>, Seq<SpecMetaFinding>>, Seq<char>>
    decreases units.len() - i,
{
    if i < 0 || i >= units.len() {
        Ok(acc)
    } else {
        let u = units[i];
        match u.ast {
            None => Err(u.identifier@),
            Some(root) => {
                if seen.contains(root.spec_tree_id()) {
                    spec_run_from(units, i + 1, rules, sm, seen, acc)
                } else {
                    spec_run_from(
                        units,
                        i + 1,
                        rules,
                        sm,
                        seen.push(root.spec_tree_id()),
                        spec_rules_merge(
                            rules,
                            root,
                            spec_file_stem(spec_unit_ast_path(u)),
                            u.version,
                            spec_source_text(sm, u.source_path@),
                            acc,
                        ),
                    )
                }
            },
        }
    }
}

/// Stable insertion of index `k` into an identifier-sorted index list:
/// after every index whose unit's identifier is not larger.
pub open spec fn spec_insert_idx(sorted: Seq<int>, units: Seq<CompiledUnit>, k: int) -> Seq<int>
    decreases sorted.len(),
{
    if sorted.len() == 0 {
        seq![k]
    } else if crate::strutil::spec_str_le(
        units[sorted.last()].identifier@,
        units[k].identifier@,
    ) {
        sorted.push(k)
    } else {
        spec_insert_idx(sorted.drop_last(), units, k).push(sorted.last())
    }
}

/// The identifier-sorted order of the first `n` units, as a stable
/// insertion sort of their indices.
pub open spec fn spec_sort_idx(units: Seq<CompiledUnit>, n: int) -> Seq<int>
    decreases n,
{
    if n <= 0 {
        Seq::empty()
    } else {
        spec_insert_idx(spec_sort_idx(units, n - 1), units, n - 1)
    }
}

proof fn lemma_insert_idx_bounds(sorted: Seq<int>, units: Seq<CompiledUnit>, k: int, lo: int, hi: int)
    requires
        forall|j: int| 0 <= j < sorted.len() ==> lo <= #[trigger] sorted[j] < hi,
        lo <= k < hi,
    ensures
        spec_insert_idx(sorted, units, k).len() == sorted.len() + 1,
        forall|j: int|
            0 <= j < spec_insert_idx(sorted, units, k).len() ==> lo <= #[trigger] spec_insert_idx(
                sorted,
                units,
                k,
            )[j] < hi,
    decreases sorted.len(),
{
    if sorted.len() > 0 && !crate::strutil::spec_str_le(
        units[sorted.last()].identifier@,
        units[k].identifier@,
    ) {
        assert(forall|j: int|
            0 <= j < sorted.len() - 1 ==> lo <= #[trigger] sorted.drop_last()[j] < hi) by {
            assert(forall|j: int|
                0 <= j < sorted.len() - 1 ==> sorted.drop_last()[j] == sorted[j]);
        }
        lemma_insert_idx_bounds(sorted.drop_last(), units, k, lo, hi);
    }
}

/// Every index the sort produces points into the units.
pub proof fn lemma_sort_idx_bounds(units: Seq<CompiledUnit>, n: int)
    requires
        0 <= n <= units.len(),
    ensures
        spec_sort_idx(units, n).len() == n,
        forall|j: int|
            0 <= j < n ==> 0 <= #[trigger] spec_sort_idx(units, n)[j] < units.len(),
    decreases n,
{
    if n > 0 {
        lemma_sort_idx_bounds(units, n - 1);
        lemma_insert_idx_bounds(spec_sort_idx(units, n - 1), units, n - 1, 0, units.len() as int);
    }
}

/// The indices of `r`, as mathematical integers.
pub open spec fn spec_idx_view(r: Seq<usize>) -> Seq<int> {
    Seq::new(r.len(), |j: int| r[j] as int)
}

fn insertion_point(r: &Vec<usize>, units: &Vec<CompiledUnit>, k: usize) -> (p: usize)
    requires
        k < units@.len(),
        forall|j: int| 0 <= j < r@.len() ==> (#[trigger] r@[j]) < units@.len(),
    ensures
        p <= r@.len(),
        spec_insert_idx(spec_idx_view(r@), units@, k as int) == spec_idx_view(r@).take(
            p as int,
        ).push(k as int) + spec_idx_view(r@).skip(p as int),
{
    let ghost sb = spec_idx_view(r@);
    let mut p: usize = r.len();
    proof {
        assert(sb.take(p as int) =~= sb);
        assert(spec_insert_idx(sb, units@, k as int) =~= spec_insert_idx(
            sb.take(p as int),
            units@,
            k as int,
        ) + sb.skip(p as int));
    }
    while p > 0
        invariant
            p <= r@.len(),
            k < units@.len(),
            sb == spec_idx_view(r@),
            sb.len() == r@.len(),
            forall|j: int| 0 <= j < r@.len() ==> (#[trigger] r@[j]) < units@.len(),
            spec_insert_idx(sb, units@, k as int) == spec_insert_idx(
                sb.take(p as int),
                units@,
                k as int,
            ) + sb.skip(p as int),
        decreases p,
    {
        proof {
            assert(sb.take(p as int).drop_last() =~= sb.take(p - 1));
            assert(sb.take(p as int).last() == sb[p - 1]);
            assert(sb[p - 1] == r@[p - 1] as int);
        }
        let prev = r[p - 1];
        if crate::strutil::str_le(units[prev].identifier.as_str(), units[k].identifier.as_str()) {
            proof {
                assert(spec_insert_idx(sb.take(p as int), units@, k as int) =~= sb.take(
                    p as int,
                ).push(k as int));
            }
            return p;
        }
        proof {
            assert(spec_insert_idx(sb.take(p as int), units@, k as int) =~= spec_insert_idx(
                sb.take(p - 1),
                units@,
                k as int,
            ).push(sb[p - 1]));
            assert(spec_insert_idx(sb.take(p - 1), units@, k as int).push(sb[p - 1]) + sb.skip(
                p as int,
            ) =~= spec_insert_idx(sb.take(p - 1), units@, k as int) + sb.skip(p - 1));
        }
        p -= 1;
    }
    proof {
        assert(sb.take(0) =~= Seq::<int>::empty());
        assert(spec_insert_idx(sb.take(0), units@, k as int) =~= seq![k as int]);
        assert(seq![k as int] =~= sb.take(0).push(k as int));
    }
    0
}

fn sort_indices(units: &Vec<CompiledUnit>) -> (r: Vec<usize>)
    ensures
        r@.len() == units@.len(),
        forall|j: int| 0 <= j < r@.len() ==> (#[trigger] r@[j]) < units@.len(),
        forall|j: int|
            0 <= j < r@.len() ==> #[trigger] r@[j] as int == spec_sort_idx(
                units@,
                units@.len() as int,
            )[j],
{
    let n = units.len();
    let mut r: Vec<usize> = Vec::new();
    let mut k: usize = 0;
    while k < n
        invariant
            k <= n,
            n == units@.len(),
            r@.len() == k,
            forall|j: int| 0 <= j < r@.len() ==> (#[trigger] r@[j]) < n,
            spec_idx_view(r@) == spec_sort_idx(units@, k as int),
        decreases n - k,
    {
        let ghost sb = spec_idx_view(r@);
        proof {
            lemma_sort_idx_bounds(units@, k as int);
        }
        let p = insertion_point(&r, units, k);
        r.insert(p, k);
        proof {
            assert(spec_idx_view(r@) =~= sb.take(p as int).push(k as int) + sb.skip(p as int));
            assert(spec_idx_view(r@) =~= spec_insert_idx(sb, units@, k as int));
            assert(spec_sort_idx(units@, k + 1) == spec_insert_idx(
                spec_sort_idx(units@, k as int),
                units@,
                k as int,
            ));
        }
        k += 1;
    }
    proof {
        assert(forall|j: int|
            0 <= j < r@.len() ==> #[trigger] r@[j] as int == spec_idx_view(r@)[j]);
        lemma_sort_idx_bounds(units@, n as int);
        assert(forall|j: int|
            0 <= j < r@.len() ==> 0 <= #[trigger] spec_sort_idx(units@, n as int)[j] < n);
    }
    r
}

/// Scanning for a duplicate rule name: the first name that repeats an
/// earlier registration, in registration order.
pub open spec fn spec_first_dup(rules: Seq<Rule>, j: int) -> Option<Seq<char>>
    decreases rules.len() - j,
{
    if j < 0 || j >= rules.len() {
        None
    } else if exists|i: int| 0 <= i < j && rule_name_spec(#[trigger] rules[i]) == rule_name_spec(
        rules[j],
    ) {
        Some(rule_name_spec(rules[j]))
    } else {
        spec_first_dup(rules, j + 1)
    }
}

/// The walker: a batch of compiled units, the raw text of their source
/// files, and the registered rules, ready to be traversed into one
/// aggregated result.
pub struct Walker {
    pub artifact: Vec<CompiledUnit>,
    pub source_map: Vec<SourceMapEntry>,
    pub visitors: Vec<Rule>,
}

impl Walker {
    /// Assemble a walker over the given units, sources and rules.
    pub fn new(
        artifact: Vec<CompiledUnit>,
        source_map: Vec<SourceMapEntry>,
        visitors: Vec<Rule>,
    ) -> (r: Walker)
        ensures
            r.artifact@ == artifact@,
            r.source_map@ == source_map@,
            r.visitors@ == visitors@,
    {
        Walker { artifact, source_map, visitors }
    }

    /// Run every registered rule over every unique compiled unit, in unit
    /// identifier order, and aggregate the located findings by rule name.
    /// Two registered rules sharing a name are a configuration error, as is
    /// a unit without a tree; a unit whose tree identity was already
    /// processed contributes nothing further.  The walker's own units,
    /// sources and rules are read-only inputs: the run leaves them as they
    /// were.
    pub fn traverse(&mut self) -> (r: Result<AllFindings, AnalysisError>)
        ensures
            final(self).artifact@ == old(self).artifact@,
            final(self).source_map@ == old(self).source_map@,
            final(self).visitors@ == old(self).visitors@,
            ({
                let ordered = Seq::new(
                    old(self).artifact@.len(),
                    |j: int|
                        old(self).artifact@[spec_sort_idx(
                            old(self).artifact@,
                            old(self).artifact@.len() as int,
                        )[j]],
                );
                let run = spec_run_from(
                    ordered,
                    0,
                    old(self).visitors@,
                    old(self).source_map@,
                    Seq::empty(),
                    Map::empty(),
                );
                match spec_first_dup(old(self).visitors@, 1) {
                    Some(dup) => r is Err && r->Err_0 is DuplicateRuleName
                        && r->Err_0->DuplicateRuleName_0@ == dup,
                    None => match run {
                        Ok(m) => r is Ok && r->Ok_0.wf() && r->Ok_0@ == m,
                        Err(ident) => r is Err && r->Err_0 is MissingAst
                            && r->Err_0->MissingAst_0@ == ident,
                    },
                }
            }),
    {
        let nrules = self.visitors.len();
        let mut j: usize = 1;
        while j < nrules
            invariant
                1 <= j,
                nrules == self.visitors@.len(),
                self.visitors@ == old(self).visitors@,
                self.artifact@ == old(self).artifact@,
                self.source_map@ == old(self).source_map@,
                spec_first_dup(self.visitors@, 1) == spec_first_dup(self.visitors@, j as int),
            decreases nrules - j,
        {
            let mut i: usize = 0;
            while i < j
                invariant
                    i <= j < nrules,
                    nrules == self.visitors@.len(),
                    self.visitors@ == old(self).visitors@,
                    self.artifact@ == old(self).artifact@,
                    self.source_map@ == old(self).source_map@,
                    spec_first_dup(self.visitors@, 1) == spec_first_dup(
                        self.visitors@,
                        j as int,
                    ),
                    forall|t: int|
                        0 <= t < i ==> rule_name_spec(#[trigger] self.visitors@[t])
                            != rule_name_spec(self.visitors@[j as int]),
                decreases j - i,
            {
                let a = rule_name(&self.visitors[i]);
                let b = rule_name(&self.visitors[j]);
                if crate::strutil::str_eq(a.as_str(), b.as_str()) {
                    proof {
                        assert(rule_name_spec(self.visitors@[i as int]) == rule_name_spec(
                            self.visitors@[j as int],
                        ));
                        assert(spec_first_dup(self.visitors@, j as int) == Some(
                            rule_name_spec(self.visitors@[j as int]),
                        ));
                    }
                    return Err(AnalysisError::DuplicateRuleName(b));
                }
                i += 1;
            }
            proof {
                assert(spec_first_dup(self.visitors@, j as int) == spec_first_dup(
                    self.visitors@,
                    j + 1,
                ));
            }
            j += 1;
        }
        proof {
            if nrules > 0 {
                assert(spec_first_dup(self.visitors@, nrules as int) is None);
            }
            assert(spec_first_dup(self.visitors@, 1) is None);
        }

        let perm = sort_indices(&self.artifact);
        let ghost ordered = Seq::new(
            self.artifact@.len(),
            |t: int|
                self.artifact@[spec_sort_idx(
                    self.artifact@,
                    self.artifact@.len() as int,
                )[t]],
        );
        let mut all = AllFindings::new();
        let mut ids: Vec<u64> = Vec::new();
        let n = perm.len();
        let mut t: usize = 0;
        while t < n
            invariant
                t <= n,
                n == perm@.len(),
                n == self.artifact@.len(),
                self.visitors@ == old(self).visitors@,
                self.artifact@ == old(self).artifact@,
                self.source_map@ == old(self).source_map@,
                forall|q: int| 0 <= q < n ==> (#[trigger] perm@[q]) < n,
                forall|q: int|
                    0 <= q < n ==> #[trigger] perm@[q] as int == spec_sort_idx(
                        self.artifact@,
                        n as int,
                    )[q],
                ordered == Seq::new(
                    self.artifact@.len(),
                    |q: int|
                        self.artifact@[spec_sort_idx(self.artifact@, n as int)[q]],
                ),
                all.wf(),
                spec_first_dup(self.visitors@, 1) is None,
                spec_run_from(
                    ordered,
                    0,
                    self.visitors@,
                    self.source_map@,
                    Seq::empty(),
                    Map::empty(),
                ) == spec_run_from(
                    ordered,
                    t as int,
                    self.visitors@,
                    self.source_map@,
                    ids@,
                    all@,
                ),
            decreases n - t,
        {
            let u = &self.artifact[perm[t]];
            proof {
                assert(ordered[t as int] == self.artifact@[perm@[t as int] as int]);
            }
            match &u.ast {
                None => {
                    proof {
                        assert(ordered[t as int].ast is None);
                        assert(spec_run_from(
                            ordered,
                            t as int,
                            self.visitors@,
                            self.source_map@,
                            ids@,
                            all@,
                        ) == Err::<Map<Seq<char>, Seq<SpecMetaFinding>>, Seq<char>>(
                            ordered[t as int].identifier@,
                        ));
                    }
                    return Err(AnalysisError::MissingAst(u.identifier.clone()));
                },
                Some(root) => {
                    let tid = root.tree_id();
                    let mut seen = false;
                    let nids = ids.len();
                    let mut q: usize = 0;
                    while q < nids
                        invariant
                            q <= nids,
                            nids == ids@.len(),
                            seen == ids@.take(q as int).contains(tid),
                        decreases nids - q,
                    {
                        proof {
                            assert(ids@.take(q + 1).drop_last() =~= ids@.take(q as int));
                            assert(ids@.take(q + 1).last() == ids@[q as int]);
                            if ids@.take(q as int).contains(tid) {
                                let w = choose|w: int|
                                    0 <= w < q && ids@.take(q as int)[w] == tid;
                                assert(ids@.take(q + 1)[w] == tid);
                            }
                            if ids@[q as int] == tid {
                                assert(ids@.take(q + 1)[q as int] == tid);
                            }
                            if !ids@.take(q as int).contains(tid) && ids@[q as int] != tid {
                                assert forall|w: int|
                                    0 <= w < q + 1 implies #[trigger] ids@.take(q + 1)[w]
                                    != tid by {
                                    if w < q {
                                        assert(ids@.take(q as int)[w] == ids@.take(q + 1)[w]);
                                    }
                                }
                            }
                        }
                        if !seen && ids[q] == tid {
                            seen = true;
                        }
                        proof {
                            if seen && !ids@.take(q + 1).contains(tid) {
                                assert(false);
                            }
                        }
                        q += 1;
                    }
                    proof {
                        assert(ids@.take(nids as int) =~= ids@);
                    }
                    if !seen {
                        ids.push(tid);
                        let empty_text: Vec<u8> = Vec::new();
                        let text: &Vec<u8> = match find_source(
                            &self.source_map,
                            u.source_path.as_str(),
                        ) {
                            Some(tx) => tx,
                            None => &empty_text,
                        };
                        let name = file_stem(root.absolute_path());
                        let info = Information { name, version: u.version };
                        proof {
                            assert(info.name@ == spec_file_stem(
                                spec_unit_ast_path(ordered[t as int]),
                            ));
                            assert(text@ == spec_source_text(
                                self.source_map@,
                                ordered[t as int].source_path@,
                            ));
                        }
                        let ghost acc0 = all@;
                        let nr = self.visitors.len();
                        let mut rix: usize = 0;
                        proof {
                            assert(self.visitors@.take(0) =~= Seq::<Rule>::empty());
                        }
                        while rix < nr
                            invariant
                                rix <= nr,
                                nr == self.visitors@.len(),
                                self.visitors@ == old(self).visitors@,
                                all.wf(),
                                all@ == spec_rules_merge(
                                    self.visitors@.take(rix as int),
                                    *root,
                                    info.name@,
                                    info.version,
                                    text@,
                                    acc0,
                                ),
                                info.version == ordered[t as int].version,
                                info.name@ == spec_file_stem(
                                    spec_unit_ast_path(ordered[t as int]),
                                ),
                                text@ == spec_source_text(
                                    self.source_map@,
                                    ordered[t as int].source_path@,
                                ),
                                *root == ordered[t as int].ast->0,
                            decreases nr - rix,
                        {
                            proof {
                                assert(self.visitors@.take(rix + 1).drop_last()
                                    =~= self.visitors@.take(rix as int));
                                assert(self.visitors@.take(rix + 1).last()
                                    == self.visitors@[rix as int]);
                            }
                            visit_source(root, &self.visitors[rix], &info, text, &mut all);
                            rix += 1;
                        }
                        proof {
                            assert(self.visitors@.take(nr as int) =~= self.visitors@);
                        }
                    }
                },
            }
            t += 1;
        }
        proof {
            assert(spec_run_from(
                ordered,
                n as int,
                self.visitors@,
                self.source_map@,
                ids@,
                all@,
            ) == Ok::<Map<Seq<char>, Seq<SpecMetaFinding>>, Seq<char>>(all@));
        }
        Ok(all)
    }
}


/// The nodes a rule's dispatch pass visits, in visiting order: the node
/// itself, then — when the hook lets the walk continue — its children's
/// trees.
pub open spec fn visited_spec(rule: Rule, node: Node) -> Seq<Node>
    decreases node,
{
    seq![node] + if hook_descends(rule, node) {
        visited_seq_spec(rule, node.children@)
    } else {
        Seq::empty()
    }
}

/// The nodes visited across a forest, left to right.
pub open spec fn visited_seq_spec(rule: Rule, ns: Seq<Node>) -> Seq<Node>
    decreases ns,
{
    if ns.len() == 0 {
        Seq::empty()
    } else {
        visited_spec(rule, ns[0]) + visited_seq_spec(rule, ns.drop_first())
    }
}

proof fn lemma_contains_concat_left<A>(a: Seq<A>, b: Seq<A>, m: A)
    requires
        a.contains(m),
    ensures
        (a + b).contains(m),
{
    let w = choose|w: int| 0 <= w < a.len() && a[w] == m;
    assert((a + b)[w] == m);
}

proof fn lemma_contains_concat_right<A>(a: Seq<A>, b: Seq<A>, m: A)
    requires
        b.contains(m),
    ensures
        (a + b).contains(m),
{
    let w = choose|w: int| 0 <= w < b.len() && b[w] == m;
    assert((a + b)[a.len() + w] == m);
}

/// Traversal completeness: over a tree in which the rule declines descent
/// nowhere — in particular over any tree made of kinds the rule has no hook
/// for, since the default continuation always descends — the dispatch pass
/// visits exactly the tree's pre-order node enumeration: full coverage.
pub proof fn lemma_traversal_complete(rule: Rule, node: Node)
    requires
        forall|m: Node| crate::ast::preorder(node).contains(m) ==> hook_descends(rule, m),
    ensures
        visited_spec(rule, node) == crate::ast::preorder(node),
    decreases node,
{
    assert(crate::ast::preorder(node)[0] == node);
    assert(crate::ast::preorder(node).contains(node));
    assert(hook_descends(rule, node));
    assert forall|m: Node|
        crate::ast::preorder_seq(node.children@).contains(m) implies hook_descends(
        rule,
        m,
    ) by {
        lemma_contains_concat_right(seq![node], crate::ast::preorder_seq(node.children@), m);
    }
    lemma_traversal_complete_seq(rule, node.children@);
}

proof fn lemma_traversal_complete_seq(rule: Rule, ns: Seq<Node>)
    requires
        forall|m: Node| crate::ast::preorder_seq(ns).contains(m) ==> hook_descends(rule, m),
    ensures
        visited_seq_spec(rule, ns) == crate::ast::preorder_seq(ns),
    decreases ns,
{
    if ns.len() > 0 {
        assert forall|m: Node|
            crate::ast::preorder(ns[0]).contains(m) implies hook_descends(rule, m) by {
            lemma_contains_concat_left(
                crate::ast::preorder(ns[0]),
                crate::ast::preorder_seq(ns.drop_first()),
                m,
            );
        }
        assert forall|m: Node|
            crate::ast::preorder_seq(ns.drop_first()).contains(m) implies hook_descends(
            rule,
            m,
        ) by {
            lemma_contains_concat_right(
                crate::ast::preorder(ns[0]),
                crate::ast::preorder_seq(ns.drop_first()),
                m,
            );
        }
        lemma_traversal_complete(rule, ns[0]);
        lemma_traversal_complete_seq(rule, ns.drop_first());
    }
}

/// Rule names all differ.
pub open spec fn rule_names_distinct(rules: Seq<Rule>) -> bool {
    forall|i: int, j: int|
        0 <= i < j < rules.len() ==> rule_name_spec(#[trigger] rules[i]) != rule_name_spec(
            #[trigger] rules[j],
        )
}

/// Merging a unit's passes never touches a key that is no rule's name.
proof fn lemma_merge_frame(
    rules: Seq<Rule>,
    root: Node,
    fname: Seq<char>,
    version: Version,
    text: Seq<u8>,
    acc: Map<Seq<char>, Seq<SpecMetaFinding>>,
    key: Seq<char>,
)
    requires
        forall|i: int| 0 <= i < rules.len() ==> rule_name_spec(#[trigger] rules[i]) != key,
    ensures
        spec_rules_merge(rules, root, fname, version, text, acc).contains_key(key)
            == acc.contains_key(key),
        acc.contains_key(key) ==> spec_rules_merge(rules, root, fname, version, text, acc)[key]
            == acc[key],
    decreases rules.len(),
{
    if rules.len() > 0 {
        assert(forall|i: int|
            0 <= i < rules.len() - 1 ==> rule_name_spec(#[trigger] rules.drop_last()[i]) != key);
        lemma_merge_frame(rules.drop_last(), root, fname, version, text, acc, key);
    }
}

/// Isolation: with distinct rule names, the findings a unit's merge leaves
/// under one rule's name are the prior findings under that name followed by
/// that rule's own pass over the tree — independent of every other rule's
/// behaviour, state or emissions.
pub proof fn lemma_rule_isolation(
    rules: Seq<Rule>,
    k: int,
    root: Node,
    fname: Seq<char>,
    version: Version,
    text: Seq<u8>,
    acc: Map<Seq<char>, Seq<SpecMetaFinding>>,
)
    requires
        rule_names_distinct(rules),
        0 <= k < rules.len(),
    ensures
        ({
            let merged = spec_rules_merge(rules, root, fname, version, text, acc);
            let key = rule_name_spec(rules[k]);
            &&& merged.contains_key(key)
            &&& merged[key] == (if acc.contains_key(key) {
                acc[key]
            } else {
                Seq::empty()
            }) + spec_unit_rule_findings(rules[k], root, fname, version, text)
        }),
    decreases rules.len(),
{
    let key = rule_name_spec(rules[k]);
    let pre = rules.drop_last();
    assert(rule_names_distinct(pre)) by {
        assert(forall|i: int| 0 <= i < pre.len() ==> pre[i] == rules[i]);
    }
    if k == rules.len() - 1 {
        assert(forall|i: int|
            0 <= i < pre.len() ==> rule_name_spec(#[trigger] pre[i]) != key) by {
            assert(forall|i: int| 0 <= i < pre.len() ==> pre[i] == rules[i]);
        }
        lemma_merge_frame(pre, root, fname, version, text, acc, key);
    } else {
        lemma_rule_isolation(pre, k, root, fname, version, text, acc);
        assert(pre[k] == rules[k]);
        assert(rule_name_spec(rules[rules.len() - 1]) != key);
    }
}

/// Aggregation is append-only: processing two units in order leaves, for
/// each rule, the first unit's findings followed by the second unit's
/// findings — never interleaved, never overwritten.
pub proof fn lemma_aggregation_append(
    rules: Seq<Rule>,
    u1: CompiledUnit,
    u2: CompiledUnit,
    sm: Seq<SourceMapEntry>,
    k: int,
)
    requires
        rule_names_distinct(rules),
        0 <= k < rules.len(),
        u1.ast is Some,
        u2.ast is Some,
        u1.ast->0.spec_tree_id() != u2.ast->0.spec_tree_id(),
    ensures
        ({
            let run = spec_run_from(
                seq![u1, u2],
                0,
                rules,
                sm,
                Seq::empty(),
                Map::empty(),
            );
            let key = rule_name_spec(rules[k]);
            let f1 = spec_unit_rule_findings(
                rules[k],
                u1.ast->0,
                spec_file_stem(spec_unit_ast_path(u1)),
                u1.version,
                spec_source_text(sm, u1.source_path@),
            );
            let f2 = spec_unit_rule_findings(
                rules[k],
                u2.ast->0,
                spec_file_stem(spec_unit_ast_path(u2)),
                u2.version,
                spec_source_text(sm, u2.source_path@),
            );
            &&& run is Ok
            &&& run->Ok_0.contains_key(key)
            &&& run->Ok_0[key] == f1 + f2
        }),
{
    let units = seq![u1, u2];
    let key = rule_name_spec(rules[k]);
    let empty_map = Map::<Seq<char>, Seq<SpecMetaFinding>>::empty();
    let id1 = u1.ast->0.spec_tree_id();
    let id2 = u2.ast->0.spec_tree_id();
    assert(units[0] == u1);
    assert(units[1] == u2);
    assert(!Seq::<u64>::empty().contains(id1));
    let acc1 = spec_rules_merge(
        rules,
        u1.ast->0,
        spec_file_stem(spec_unit_ast_path(u1)),
        u1.version,
        spec_source_text(sm, u1.source_path@),
        empty_map,
    );
    assert(!Seq::<u64>::empty().push(id1).contains(id2)) by {
        assert(Seq::<u64>::empty().push(id1).len() == 1);
        assert(Seq::<u64>::empty().push(id1)[0] == id1);
    }
    let acc2 = spec_rules_merge(
        rules,
        u2.ast->0,
        spec_file_stem(spec_unit_ast_path(u2)),
        u2.version,
        spec_source_text(sm, u2.source_path@),
        acc1,
    );
    assert(spec_run_from(units, 2, rules, sm, Seq::<u64>::empty().push(id1).push(id2), acc2)
        == Ok::<Map<Seq<char>, Seq<SpecMetaFinding>>, Seq<char>>(acc2));
    assert(spec_run_from(units, 1, rules, sm, Seq::<u64>::empty().push(id1), acc1)
        == spec_run_from(
        units,
        2,
        rules,
        sm,
        Seq::<u64>::empty().push(id1).push(id2),
        acc2,
    ));
    assert(spec_run_from(units, 0, rules, sm, Seq::empty(), empty_map) == spec_run_from(
        units,
        1,
        rules,
        sm,
        Seq::<u64>::empty().push(id1),
        acc1,
    ));
    lemma_rule_isolation(
        rules,
        k,
        u1.ast->0,
        spec_file_stem(spec_unit_ast_path(u1)),
        u1.version,
        spec_source_text(sm, u1.source_path@),
        empty_map,
    );
    let f1 = spec_unit_rule_findings(
        rules[k],
        u1.ast->0,
        spec_file_stem(spec_unit_ast_path(u1)),
        u1.version,
        spec_source_text(sm, u1.source_path@),
    );
    assert(acc1[key] =~= f1) by {
        assert(acc1[key] == Seq::<SpecMetaFinding>::empty() + f1);
    }
    lemma_rule_isolation(
        rules,
        k,
        u2.ast->0,
        spec_file_stem(spec_unit_ast_path(u2)),
        u2.version,
        spec_source_text(sm, u2.source_path@),
        acc1,
    );
}


proof fn lemma_walk_ok(rule: Rule, node: Node, s: SpecCtx)
    requires
        crate::rules::findings_ok(rule, s.findings),
    ensures
        crate::rules::findings_ok(rule, walk_spec(rule, node, s).findings),
    decreases node, 1int,
{
    crate::rules::lemma_hook_pre_ok(rule, node, s);
    let s1 = hook_pre_spec(rule, node, s);
    let s2 = if hook_descends(rule, node) {
        lemma_walk_seq_ok(rule, node.children@, s1);
        walk_seq_spec(rule, node.children@, s1)
    } else {
        s1
    };
    crate::rules::lemma_hook_post_ok(rule, node, s2);
}

proof fn lemma_walk_seq_ok(rule: Rule, ns: Seq<Node>, s: SpecCtx)
    requires
        crate::rules::findings_ok(rule, s.findings),
    ensures
        crate::rules::findings_ok(rule, walk_seq_spec(rule, ns, s).findings),
    decreases ns, 0int,
{
    if ns.len() > 0 {
        lemma_walk_seq_ok(rule, ns.drop_last(), s);
        lemma_walk_ok(rule, ns.last(), walk_seq_spec(rule, ns.drop_last(), s));
    }
}

/// Engine invariant: every finding a dispatch pass emits carries a code of
/// the active rule's catalog, under that rule's name — a rule can neither
/// emit an uncataloged code nor write into another rule's results.
pub proof fn lemma_pass_findings_cataloged(
    rule: Rule,
    root: Node,
    name: Seq<char>,
    version: Version,
    text: Seq<u8>,
)
    ensures
        crate::rules::findings_ok(rule, spec_pass(rule, root, name, version, text)),
{
    lemma_walk_ok(rule, root, spec_init_ctx(name, version, text));
}

} // verus!
