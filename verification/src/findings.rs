//! The finding and result model: raw findings produced during a dispatch
//! pass, located findings enriched with file/line/column and excerpt, and
//! the run-wide result map from rule name to its ordered findings.

use crate::ast::Src;
use vstd::prelude::*;

verus! {

/// The closed set of finding severities.
#[derive(Clone, Copy, PartialEq, Eq, Structural, Debug)]
pub enum Severity {
    High,
    Medium,
    Low,
    Gas,
    Informal,
}

/// The catalog entry behind one finding code: how the finding is presented.
#[derive(Debug)]
pub struct FindingKey {
    pub summary: String,
    pub description: String,
    pub severity: Severity,
}

/// A finding as a rule emits it during a walk: the rule's name, a code into
/// that rule's catalog, and the byte range it points at, if any.
#[derive(Debug)]
pub struct RawFinding {
    pub name: String,
    pub code: u64,
    pub src: Option<Src>,
}

/// The mathematical value of a [`RawFinding`].
#[verifier::ext_equal]
pub struct SpecRawFinding {
    pub name: Seq<char>,
    pub code: u64,
    pub src: Option<Src>,
}

impl View for RawFinding {
    type V = SpecRawFinding;

    open spec fn view(&self) -> SpecRawFinding {
        SpecRawFinding { name: self.name@, code: self.code, src: self.src }
    }
}

impl DeepView for RawFinding {
    type V = SpecRawFinding;

    open spec fn deep_view(&self) -> SpecRawFinding {
        self.view()
    }
}

/// A raw finding with its position resolved: the emitted rule name, code
/// and byte range unchanged, plus the resolved file name, 1-based line,
/// 0-based column, the excerpt of the range, and the catalog presentation.
/// A finding without a byte range, or one located through a file whose text
/// is unavailable, sits at the origin `(0, 0)` with an empty excerpt.
#[derive(Debug)]
pub struct MetaFinding {
    pub name: String,
    pub code: u64,
    pub src: Option<Src>,
    pub summary: String,
    pub description: String,
    pub severity: Severity,
    pub file: String,
    pub line: usize,
    pub position: usize,
    pub content: Vec<u8>,
}

/// The mathematical value of a [`MetaFinding`].  The summary and description
/// texts are presentation pulled from the catalog and are not modelled.
#[verifier::ext_equal]
pub struct SpecMetaFinding {
    pub name: Seq<char>,
    pub code: u64,
    pub src: Option<Src>,
    pub severity: Severity,
    pub file: Seq<char>,
    pub line: int,
    pub position: int,
    pub content: Seq<u8>,
}

impl View for MetaFinding {
    type V = SpecMetaFinding;

    open spec fn view(&self) -> SpecMetaFinding {
        SpecMetaFinding {
            name: self.name@,
            code: self.code,
            src: self.src,
            severity: self.severity,
            file: self.file@,
            line: self.line as int,
            position: self.position as int,
            content: self.content@,
        }
    }
}

impl DeepView for MetaFinding {
    type V = SpecMetaFinding;

    open spec fn deep_view(&self) -> SpecMetaFinding {
        self.view()
    }
}


/// The mathematical values of a sequence of raw findings.
pub open spec fn rf_views(s: Seq<RawFinding>) -> Seq<SpecRawFinding> {
    Seq::new(s.len(), |i: int| s[i]@)
}

/// The mathematical values of a sequence of located findings.
pub open spec fn mf_views(s: Seq<MetaFinding>) -> Seq<SpecMetaFinding> {
    Seq::new(s.len(), |i: int| s[i]@)
}

/// The result map of one run, keyed by rule name; each rule's findings stay
/// in the order they were located.  Merging is append-only: results already
/// aggregated are never replaced or reordered by later units.
pub struct AllFindings {
    entries: Vec<(String, Vec<MetaFinding>)>,
}

/// The map denoted by an association list of result entries.
spec fn map_of(s: Seq<(String, Vec<MetaFinding>)>) -> Map<
    Seq<char>,
    Seq<SpecMetaFinding>,
>
    decreases s.len(),
{
    if s.len() == 0 {
        Map::empty()
    } else {
        map_of(s.drop_last()).insert(s.last().0@, mf_views(s.last().1@))
    }
}

/// Entry names are pairwise distinct.
spec fn entries_wf(s: Seq<(String, Vec<MetaFinding>)>) -> bool {
    forall|i: int, j: int| 0 <= i < j < s.len() ==> s[i].0@ != s[j].0@
}

proof fn lemma_map_of_contains(s: Seq<(String, Vec<MetaFinding>)>, k: int)
    requires
        0 <= k < s.len(),
    ensures
        map_of(s).contains_key(s[k].0@),
    decreases s.len(),
{
    if k < s.len() - 1 {
        lemma_map_of_contains(s.drop_last(), k);
    }
}

proof fn lemma_map_of_absent(s: Seq<(String, Vec<MetaFinding>)>, key: Seq<char>)
    requires
        forall|i: int| 0 <= i < s.len() ==> s[i].0@ != key,
    ensures
        !map_of(s).contains_key(key),
    decreases s.len(),
{
    if s.len() > 0 {
        lemma_map_of_absent(s.drop_last(), key);
    }
}

/// Replacing the entry at `k` by one with the same name updates exactly
/// that key of the denoted map.
proof fn lemma_map_of_update(
    s: Seq<(String, Vec<MetaFinding>)>,
    k: int,
    e: (String, Vec<MetaFinding>),
)
    requires
        entries_wf(s),
        0 <= k < s.len(),
        e.0@ == s[k].0@,
    ensures
        map_of(s.update(k, e)) == map_of(s).insert(e.0@, mf_views(e.1@)),
    decreases s.len(),
{
    let u = s.update(k, e);
    if k == s.len() - 1 {
        assert(u.drop_last() =~= s.drop_last());
        assert(map_of(u) == map_of(s.drop_last()).insert(e.0@, mf_views(e.1@)));
        assert(map_of(s).insert(e.0@, mf_views(e.1@)) =~= map_of(s.drop_last()).insert(
            e.0@,
            mf_views(e.1@),
        ));
    } else {
        assert(u.drop_last() =~= s.drop_last().update(k, e));
        assert(entries_wf(s.drop_last()));
        lemma_map_of_update(s.drop_last(), k, e);
        assert(u.last() == s.last());
        // the two inserted keys differ, so the inserts commute
        assert(s.last().0@ != e.0@) by {
            assert(s[k].0@ != s[s.len() - 1].0@);
        }
        assert(map_of(u) =~= map_of(s).insert(e.0@, mf_views(e.1@)));
    }
}

impl View for AllFindings {
    type V = Map<Seq<char>, Seq<SpecMetaFinding>>;

    closed spec fn view(&self) -> Map<Seq<char>, Seq<SpecMetaFinding>> {
        map_of(self.entries@)
    }
}

impl AllFindings {
    /// Internal well-formedness: one entry per rule name.
    pub closed spec fn wf(&self) -> bool {
        entries_wf(self.entries@)
    }

    /// An empty result map.
    pub fn new() -> (r: AllFindings)
        ensures
            r.wf(),
            r@ == Map::<Seq<char>, Seq<SpecMetaFinding>>::empty(),
    {
        AllFindings { entries: Vec::new() }
    }

    /// How many rules have an entry.
    pub fn len(&self) -> (r: usize)
        requires
            self.wf(),
        ensures
            r == self@.dom().len(),
    {
        proof {
            lemma_map_len(self.entries@);
        }
        self.entries.len()
    }

    /// Append-only merge: the findings are appended to the sequence keyed by
    /// `name`, which is created if it does not exist yet.  Entries of other
    /// rules are untouched.
    pub fn merge(&mut self, name: &String, items: Vec<MetaFinding>)
        requires
            old(self).wf(),
        ensures
            final(self).wf(),
            final(self)@ == old(self)@.insert(
                name@,
                (if old(self)@.contains_key(name@) {
                    old(self)@[name@]
                } else {
                    Seq::empty()
                }) + mf_views(items@),
            ),
    {
        let n = self.entries.len();
        let mut i: usize = 0;
        while i < n
            invariant
                i <= n,
                n == self.entries@.len(),
                self.entries@ == old(self).entries@,
                entries_wf(self.entries@),
                forall|j: int| 0 <= j < i ==> self.entries@[j].0@ != name@,
            decreases n - i,
        {
            if crate::strutil::str_eq(self.entries[i].0.as_str(), name.as_str()) {
                let ghost old_entries = self.entries@;
                let ghost items_view = mf_views(items@);
                let (nm, mut fs) = self.entries.remove(i);
                let ghost fs_before = fs@;
                let mut rest = items;
                fs.append(&mut rest);
                proof {
                    assert(fs@ =~= fs_before + items@);
                    assert(mf_views(fs@) =~= mf_views(old_entries[i as int].1@) + items_view);
                }
                self.entries.insert(i, (nm, fs));
                proof {
                    assert(self.entries@ =~= old_entries.update(
                        i as int,
                        self.entries@[i as int],
                    ));
                    assert(self.entries@[i as int].0@ == name@);
                    lemma_map_of_update(old_entries, i as int, self.entries@[i as int]);
                    lemma_entry_lookup(old_entries, i as int);
                    assert(entries_wf(self.entries@));
                }
                return ;
            }
            i += 1;
        }
        proof {
            lemma_map_of_absent(self.entries@, name@);
        }
        self.entries.push((name.clone(), items));
        proof {
            assert(self.entries@.drop_last() =~= old(self).entries@);
            assert(mf_views(self.entries@.last().1@) =~= Seq::<SpecMetaFinding>::empty()
                + mf_views(self.entries@.last().1@));
        }
    }

    /// The lines of this rule's findings that carry the given code, in
    /// aggregation order.
    pub fn lines_for_findings_with_code(&self, name: &str, code: u64) -> (r: Vec<usize>)
        requires
            self.wf(),
        ensures
            self@.contains_key(name@) ==> r@ == lines_of(self@[name@], code),
            !self@.contains_key(name@) ==> r@ == Seq::<usize>::empty(),
    {
        let mut r: Vec<usize> = Vec::new();
        let n = self.entries.len();
        let mut i: usize = 0;
        while i < n
            invariant
                i <= n,
                n == self.entries@.len(),
                entries_wf(self.entries@),
                r@ == Seq::<usize>::empty(),
                forall|j: int| 0 <= j < i ==> self.entries@[j].0@ != name@,
            decreases n - i,
        {
            if crate::strutil::str_eq(self.entries[i].0.as_str(), name) {
                let fs = &self.entries[i].1;
                let m = fs.len();
                let mut k: usize = 0;
                while k < m
                    invariant
                        k <= m,
                        m == fs@.len(),
                        r@ == lines_of(mf_views(fs@.take(k as int)), code),
                    decreases m - k,
                {
                    proof {
                        lemma_lines_of_step(fs@, k as int, code);
                    }
                    if fs[k].code == code {
                        r.push(fs[k].line);
                    }
                    k += 1;
                }
                proof {
                    assert(fs@.take(m as int) =~= fs@);
                    lemma_entry_lookup(self.entries@, i as int);
                }
                return r;
            }
            i += 1;
        }
        proof {
            lemma_map_of_absent(self.entries@, name@);
        }
        r
    }

    /// The findings aggregated under a rule's name, in aggregation order.
    pub fn get(&self, name: &str) -> (r: Option<&Vec<MetaFinding>>)
        requires
            self.wf(),
        ensures
            r is Some <==> self@.contains_key(name@),
            r is Some ==> mf_views(r->0@) == self@[name@],
    {
        let n = self.entries.len();
        let mut i: usize = 0;
        while i < n
            invariant
                i <= n,
                n == self.entries@.len(),
                entries_wf(self.entries@),
                forall|j: int| 0 <= j < i ==> self.entries@[j].0@ != name@,
            decreases n - i,
        {
            if crate::strutil::str_eq(self.entries[i].0.as_str(), name) {
                proof {
                    lemma_entry_lookup(self.entries@, i as int);
                }
                return Some(&self.entries[i].1);
            }
            i += 1;
        }
        proof {
            lemma_map_of_absent(self.entries@, name@);
        }
        None
    }

    /// Does this rule have at least one finding with the given code?
    pub fn has_with_code(&self, name: &str, code: u64) -> (r: bool)
        requires
            self.wf(),
        ensures
            r == (self@.contains_key(name@) && exists|i: int|
                0 <= i < self@[name@].len() && #[trigger] self@[name@][i].code == code),
    {
        let lines = self.lines_for_findings_with_code(name, code);
        proof {
            if self@.contains_key(name@) {
                lemma_lines_of_nonempty(self@[name@], code);
            }
        }
        lines.len() > 0
    }
}

/// The lines of the findings among `s` that carry `code`, in order.
pub open spec fn lines_of(s: Seq<SpecMetaFinding>, code: u64) -> Seq<usize>
    decreases s.len(),
{
    if s.len() == 0 {
        Seq::empty()
    } else {
        lines_of(s.drop_last(), code) + if s.last().code == code {
            seq![s.last().line as usize]
        } else {
            Seq::empty()
        }
    }
}

proof fn lemma_lines_of_step(fs: Seq<MetaFinding>, k: int, code: u64)
    requires
        0 <= k < fs.len(),
    ensures
        fs[k].code == code ==> lines_of(mf_views(fs.take(k + 1)), code) == lines_of(
            mf_views(fs.take(k)),
            code,
        ).push(fs[k].line as usize),
        fs[k].code != code ==> lines_of(mf_views(fs.take(k + 1)), code) == lines_of(
            mf_views(fs.take(k)),
            code,
        ),
{
    let t1 = mf_views(fs.take(k + 1));
    assert(t1.len() == k + 1);
    assert(t1.drop_last() =~= mf_views(fs.take(k)));
    assert(t1.last() == fs[k]@);
    if fs[k].code == code {
        assert(lines_of(t1, code) =~= lines_of(mf_views(fs.take(k)), code).push(
            fs[k].line as usize,
        ));
    } else {
        assert(lines_of(t1, code) =~= lines_of(mf_views(fs.take(k)), code));
    }
}

/// `lines_of` is nonempty exactly when some finding carries the code.
proof fn lemma_lines_of_nonempty(s: Seq<SpecMetaFinding>, code: u64)
    ensures
        lines_of(s, code).len() > 0 <==> exists|i: int|
            0 <= i < s.len() && #[trigger] s[i].code == code,
    decreases s.len(),
{
    if s.len() > 0 {
        lemma_lines_of_nonempty(s.drop_last(), code);
        if s.last().code == code {
            assert(s[s.len() - 1].code == code);
        } else {
            assert forall|i: int| 0 <= i < s.len() && #[trigger] s[i].code == code implies lines_of(
                s,
                code,
            ).len() > 0 by {
                assert(s.drop_last()[i] == s[i]);
            }
        }
    }
}

/// With distinct names, the denoted map holds entry `k`'s findings at
/// entry `k`'s name.
proof fn lemma_entry_lookup(s: Seq<(String, Vec<MetaFinding>)>, k: int)
    requires
        entries_wf(s),
        0 <= k < s.len(),
    ensures
        map_of(s).contains_key(s[k].0@),
        map_of(s)[s[k].0@] == mf_views(s[k].1@),
    decreases s.len(),
{
    lemma_map_of_contains(s, k);
    if k < s.len() - 1 {
        assert(entries_wf(s.drop_last()));
        lemma_entry_lookup(s.drop_last(), k);
        assert(s[k].0@ != s.last().0@);
    }
}

proof fn lemma_map_len(s: Seq<(String, Vec<MetaFinding>)>)
    requires
        entries_wf(s),
    ensures
        map_of(s).dom().len() == s.len(),
        map_of(s).dom().finite(),
    decreases s.len(),
{
    if s.len() > 0 {
        assert(entries_wf(s.drop_last()));
        lemma_map_len(s.drop_last());
        lemma_map_of_absent(s.drop_last(), s.last().0@);
    }
}

} // verus!
