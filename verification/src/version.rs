//! Compiler-version handling: the version triple attached to each compiled
//! unit, and pragma analysis against the known compiler releases.
//!
//! Requirement strings such as `^0.8.0` are interpreted by the `semver`
//! crate; the engine only arranges the calls and picks the largest known
//! release that satisfies the requirement.

use vstd::prelude::*;

verus! {

/// A semantic version triple.
#[derive(Clone, Copy, PartialEq, Eq, Structural, Debug)]
pub struct Version {
    pub major: u64,
    pub minor: u64,
    pub patch: u64,
}

impl Version {
    pub fn new(major: u64, minor: u64, patch: u64) -> (r: Version)
        ensures
            r == (Version { major, minor, patch }),
    {
        Version { major, minor, patch }
    }
}

/// Per-unit metadata handed to every dispatch pass: the contract name and
/// the compiler version the unit was built with.
pub struct Information {
    pub name: String,
    pub version: Version,
}

/// Whether `semver` accepts this requirement text.
pub uninterp spec fn version_req_parses(req: Seq<char>) -> bool;

/// Whether the version triple satisfies the requirement text, as `semver`
/// decides it.
pub uninterp spec fn version_req_match(req: Seq<char>, major: u64, minor: u64, patch: u64) -> bool;

/// Relies on `semver::VersionReq::parse` and `semver::VersionReq::matches`:
/// both are pure functions of the requirement text and the version triple,
/// named here by `version_req_parses` and `version_req_match`.
#[verifier::external_body]
fn req_matches(req: &str, major: u64, minor: u64, patch: u64) -> (r: Option<bool>)
    ensures
        r is Some <==> version_req_parses(req@),
        r is Some ==> r->0 == version_req_match(req@, major, minor, patch),
{
    match semver::VersionReq::parse(req) {
        Ok(rq) => Some(rq.matches(&semver::Version::new(major, minor, patch))),
        Err(_) => None,
    }
}

/// The known compiler releases, oldest first: the last release of each line
/// before 0.8, then every 0.8 patch up to 0.8.20.
pub open spec fn spec_known_version(i: int) -> Version {
    if i == 0 {
        Version { major: 0, minor: 4, patch: 26 }
    } else if i == 1 {
        Version { major: 0, minor: 5, patch: 17 }
    } else if i == 2 {
        Version { major: 0, minor: 6, patch: 12 }
    } else if i == 3 {
        Version { major: 0, minor: 7, patch: 6 }
    } else {
        Version { major: 0, minor: 8, patch: (i - 4) as u64 }
    }
}

/// How many releases [`spec_known_version`] enumerates.
pub open spec fn known_version_count() -> int {
    25
}

/// The known compiler releases, oldest first.
pub fn known_versions() -> (r: Vec<Version>)
    ensures
        r@.len() == known_version_count(),
        forall|i: int| 0 <= i < r@.len() ==> r@[i] == spec_known_version(i),
{
    let mut r: Vec<Version> = Vec::new();
    r.push(Version::new(0, 4, 26));
    r.push(Version::new(0, 5, 17));
    r.push(Version::new(0, 6, 12));
    r.push(Version::new(0, 7, 6));
    let mut p: u64 = 0;
    while p <= 20
        invariant
            p <= 21,
            r@.len() == 4 + p,
            forall|i: int| 0 <= i < r@.len() ==> r@[i] == spec_known_version(i),
        decreases 21 - p,
    {
        r.push(Version { major: 0, minor: 8, patch: p });
        p += 1;
    }
    r
}

/// The pragma tokens after the leading keyword, joined back into one
/// requirement string.
pub open spec fn spec_join_from(lits: Seq<String>, i: int) -> Seq<char>
    decreases lits.len() - i,
{
    if i < 0 || i >= lits.len() {
        Seq::empty()
    } else {
        lits[i]@ + spec_join_from(lits, i + 1)
    }
}

/// Join the pragma tokens after the first one into a requirement string.
fn join_literals_tail(literals: &Vec<String>) -> (r: String)
    ensures
        r@ == spec_join_from(literals@, 1),
{
    let n = literals.len();
    let mut r = String::new();
    let mut i: usize = n;
    if n <= 1 {
        return r;
    }
    while i > 1
        invariant
            1 <= i <= n,
            n == literals@.len(),
            r@ == spec_join_from(literals@, i as int),
        decreases i,
    {
        i -= 1;
        let mut prefix = String::new();
        prefix.append(literals[i].as_str());
        prefix.append(r.as_str());
        r = prefix;
    }
    r
}

/// The largest known release, among the first `n`, that satisfies the
/// requirement.
pub open spec fn spec_biggest_match(req: Seq<char>, n: int) -> Option<Version>
    decreases n,
{
    if n <= 0 {
        None
    } else if version_req_match(
        req,
        spec_known_version(n - 1).major,
        spec_known_version(n - 1).minor,
        spec_known_version(n - 1).patch,
    ) {
        Some(spec_known_version(n - 1))
    } else {
        spec_biggest_match(req, n - 1)
    }
}

/// What [`biggest_version_from_literals`] returns: the largest known release
/// matching the pragma's requirement, or nothing when the pragma has no
/// requirement tokens or `semver` rejects them.
pub open spec fn spec_biggest_version(lits: Seq<String>) -> Option<Version> {
    if lits.len() < 2 {
        None
    } else if !version_req_parses(spec_join_from(lits, 1)) {
        None
    } else {
        spec_biggest_match(spec_join_from(lits, 1), known_version_count())
    }
}

/// The largest known compiler release that the pragma's version requirement
/// admits.
pub fn biggest_version_from_literals(literals: &Vec<String>) -> (r: Option<Version>)
    ensures
        r == spec_biggest_version(literals@),
{
    if literals.len() < 2 {
        return None;
    }
    let req = join_literals_tail(literals);
    let vs = known_versions();
    let mut i: usize = vs.len();
    while i > 0
        invariant
            i <= vs@.len(),
            vs@.len() == known_version_count(),
            forall|k: int| 0 <= k < vs@.len() ==> vs@[k] == spec_known_version(k),
            literals@.len() >= 2,
            req@ == spec_join_from(literals@, 1),
            spec_biggest_match(req@, vs@.len() as int) == spec_biggest_match(req@, i as int),
        decreases i,
    {
        i -= 1;
        let v = vs[i];
        proof {
            assert(v == spec_known_version(i as int));
        }
        match req_matches(req.as_str(), v.major, v.minor, v.patch) {
            None => {
                return None;
            },
            Some(true) => {
                proof {
                    assert(spec_biggest_match(req@, i + 1) == Some(spec_known_version(i as int)));
                }
                return Some(v);
            },
            Some(false) => {
                proof {
                    assert(spec_biggest_match(req@, i + 1) == spec_biggest_match(req@, i as int));
                }
            },
        }
    }
    None
}

/// A character that makes a pragma requirement a range rather than a pin.
pub open spec fn spec_range_char(c: char) -> bool {
    c == '^' || c == '>' || c == '<' || c == '~' || c == '*'
}

/// Does any pragma token carry a range character, leaving the compiler
/// version unpinned?
pub open spec fn spec_unspecific_version(lits: Seq<String>) -> bool {
    exists|i: int, j: int|
        0 <= i < lits.len() && 0 <= j < lits[i]@.len() && spec_range_char(#[trigger] lits[i]@[j])
}

/// Does the pragma leave the compiler version unpinned?
pub fn is_unspecific_version(literals: &Vec<String>) -> (r: bool)
    ensures
        r == spec_unspecific_version(literals@),
{
    let n = literals.len();
    let mut i: usize = 0;
    while i < n
        invariant
            i <= n,
            n == literals@.len(),
            forall|k: int, j: int|
                0 <= k < i && 0 <= j < literals@[k]@.len() ==> !spec_range_char(
                    #[trigger] literals@[k]@[j],
                ),
        decreases n - i,
    {
        let lit = literals[i].as_str();
        let len = lit.unicode_len();
        let mut j: usize = 0;
        while j < len
            invariant
                j <= len,
                len == lit@.len(),
                lit@ == literals@[i as int]@,
                i < n,
                n == literals@.len(),
                forall|q: int| 0 <= q < j ==> !spec_range_char(#[trigger] lit@[q]),
            decreases len - j,
        {
            let c = lit.get_char(j);
            if c == '^' || c == '>' || c == '<' || c == '~' || c == '*' {
                assert(spec_range_char(literals@[i as int]@[j as int]));
                return true;
            }
            j += 1;
        }
        i += 1;
    }
    false
}

} // verus!
