//! The command surface's data model and the decisions behind it: the
//! argument structures the binary fills in, the verbosity filter, the
//! artifact folder filter, and the parsing of a remappings file.  Reading
//! the command line, the file system and the compiler output stays with
//! the caller; everything here is a pure function of the values handed in.

use crate::findings::Severity;
use crate::strutil::{
    find_char_from, spec_find_char_from, spec_starts_with, starts_with_str, str_eq,
};
use vstd::prelude::*;

verus! {

/// How a report is rendered; interpreting this is the caller's business.
#[derive(Clone, Copy, PartialEq, Eq, Structural, Debug)]
pub enum ReportStyle {
    List,
    Markdown,
    Html,
}

/// The analysis command's arguments.
pub struct Analyze {
    /// Root of the project.
    pub path: String,
    /// Include only these modules.
    pub modules: Option<Vec<String>>,
    /// Exclude these modules.
    pub except_modules: Option<Vec<String>>,
    /// Verbosity of the findings, one character per severity.
    pub verbosity: Option<String>,
    /// Style of the report.
    pub style: Option<ReportStyle>,
    pub name: Option<String>,
    /// The optimizer runs to compile with.
    pub optimizer_runs: Option<usize>,
    /// Glob of the artifacts to analyze.
    pub glob: String,
    /// Base location of a source browser path.
    pub github: Option<String>,
}

/// The gas-metering command's arguments.
pub struct GasMetering {
    /// Exclude these modules.
    pub except_modules: Option<Vec<String>>,
    /// Location of the files to meter.
    pub path: Option<String>,
    /// Reset the metering database first.
    pub reset: bool,
}

/// The subcommands the binary offers.
pub enum Commands {
    /// Run a static analysis.
    Analyze(Analyze),
    /// Launch gas meterings.
    Gas(GasMetering),
}

/// The parsed command line.
pub struct Cmd {
    pub command: Commands,
}

/// The severity a verbosity character selects.
pub open spec fn spec_severity_of_char(c: char) -> Option<Severity> {
    if c == 'h' {
        Some(Severity::High)
    } else if c == 'm' {
        Some(Severity::Medium)
    } else if c == 'l' {
        Some(Severity::Low)
    } else if c == 'g' {
        Some(Severity::Gas)
    } else if c == 'i' {
        Some(Severity::Informal)
    } else {
        None
    }
}

/// The severities a verbosity string selects, in the order its characters
/// first name them; unknown characters and repetitions change nothing.
pub open spec fn spec_verbosity_filter(chars: Seq<char>) -> Seq<Severity>
    decreases chars.len(),
{
    if chars.len() == 0 {
        Seq::empty()
    } else {
        let pre = spec_verbosity_filter(chars.drop_last());
        match spec_severity_of_char(chars.last()) {
            Some(sv) => if pre.contains(sv) {
                pre
            } else {
                pre.push(sv)
            },
            None => pre,
        }
    }
}

/// Every severity, in catalog order: what an absent verbosity selects.
pub open spec fn spec_all_severities() -> Seq<Severity> {
    seq![Severity::High, Severity::Medium, Severity::Low, Severity::Gas, Severity::Informal]
}

fn severity_of_char(c: char) -> (r: Option<Severity>)
    ensures
        r == spec_severity_of_char(c),
{
    if c == 'h' {
        Some(Severity::High)
    } else if c == 'm' {
        Some(Severity::Medium)
    } else if c == 'l' {
        Some(Severity::Low)
    } else if c == 'g' {
        Some(Severity::Gas)
    } else if c == 'i' {
        Some(Severity::Informal)
    } else {
        None
    }
}

fn contains_severity(vs: &Vec<Severity>, sv: Severity) -> (r: bool)
    ensures
        r == vs@.contains(sv),
{
    let n = vs.len();
    let mut i: usize = 0;
    while i < n
        invariant
            i <= n,
            n == vs@.len(),
            forall|k: int| 0 <= k < i ==> vs@[k] != sv,
        decreases n - i,
    {
        if vs[i] == sv {
            proof {
                assert(vs@[i as int] == sv);
            }
            return true;
        }
        i += 1;
    }
    false
}

/// The severities the caller's verbosity argument admits: each selected
/// severity once, in first-named order; no argument admits everything.
pub fn parse_verbosity(verbosity: &Option<String>) -> (r: Vec<Severity>)
    ensures
        verbosity is Some ==> r@ == spec_verbosity_filter(verbosity->0@),
        verbosity is None ==> r@ == spec_all_severities(),
{
    match verbosity {
        None => {
            let mut r: Vec<Severity> = Vec::new();
            r.push(Severity::High);
            r.push(Severity::Medium);
            r.push(Severity::Low);
            r.push(Severity::Gas);
            r.push(Severity::Informal);
            proof {
                assert(r@ =~= spec_all_severities());
            }
            r
        },
        Some(arg) => {
            let s = arg.as_str();
            let n = s.unicode_len();
            let mut r: Vec<Severity> = Vec::new();
            let mut i: usize = 0;
            proof {
                assert(s@.take(0) =~= Seq::<char>::empty());
                assert(r@ =~= spec_verbosity_filter(s@.take(0)));
            }
            while i < n
                invariant
                    i <= n,
                    n == s@.len(),
                    s@ == arg@,
                    r@ == spec_verbosity_filter(s@.take(i as int)),
                decreases n - i,
            {
                proof {
                    assert(s@.take(i + 1).drop_last() =~= s@.take(i as int));
                    assert(s@.take(i + 1).last() == s@[i as int]);
                }
                let c = s.get_char(i);
                if let Some(sv) = severity_of_char(c) {
                    if !contains_severity(&r, sv) {
                        r.push(sv);
                    }
                }
                proof {
                    assert(r@ =~= spec_verbosity_filter(s@.take(i + 1)));
                }
                i += 1;
            }
            proof {
                assert(s@.take(n as int) =~= s@);
            }
            r
        },
    }
}

/// The first path component after the project root: what decides whether
/// an artifact belongs to an included folder.  The path must extend the
/// root; a separator right after the root is skipped.
pub open spec fn spec_first_folder_after(root: Seq<char>, path: Seq<char>) -> Option<Seq<char>> {
    if !spec_starts_with(path, root) {
        None
    } else {
        let rest = path.skip(root.len() as int);
        let trimmed = if rest.len() > 0 && rest[0] == '/' {
            rest.skip(1)
        } else {
            rest
        };
        Some(trimmed.take(spec_find_char_from(trimmed, '/', 0)))
    }
}

/// Does this artifact path live under the `src` folder of the project
/// root?  Only such artifacts are analysed.
pub open spec fn spec_in_included_folder(root: Seq<char>, path: Seq<char>) -> bool {
    spec_first_folder_after(root, path) == Some("src"@)
}

/// Does this artifact path live under the `src` folder of the root?
pub fn in_included_folder(root: &str, path: &str) -> (r: bool)
    ensures
        r == spec_in_included_folder(root@, path@),
{
    if !starts_with_str(path, root) {
        return false;
    }
    let rlen = root.unicode_len();
    let plen = path.unicode_len();
    let rest = path.substring_char(rlen, plen);
    proof {
        assert(rest@ =~= path@.skip(root@.len() as int));
    }
    let restlen = rest.unicode_len();
    let trimmed = if restlen > 0 && rest.get_char(0) == '/' {
        let t = rest.substring_char(1, restlen);
        proof {
            assert(t@ =~= rest@.skip(1));
        }
        t
    } else {
        rest
    };
    let cut = find_char_from(trimmed, '/', 0);
    let folder = trimmed.substring_char(0, cut);
    proof {
        assert(folder@ =~= trimmed@.take(spec_find_char_from(trimmed@, '/', 0)));
    }
    str_eq(folder, "src")
}

/// The mathematical values of a list of remappings.
pub open spec fn pair_views(s: Seq<(String, String)>) -> Seq<(Seq<char>, Seq<char>)> {
    Seq::new(s.len(), |i: int| (s[i].0@, s[i].1@))
}

/// The remappings a file's text declares, reading from position `i` on:
/// one `name=path` pair per line that carries an `=`; other lines change
/// nothing.
pub open spec fn spec_remappings_from(text: Seq<char>, i: int) -> Seq<(Seq<char>, Seq<char>)>
    decreases text.len() + 1 - i
        via spec_remappings_from_decreases
{
    if i < 0 || i >= text.len() {
        Seq::empty()
    } else {
        let e = spec_find_char_from(text, '\n', i);
        let eq = spec_find_char_from(text, '=', i);
        (if eq < e {
            seq![(text.subrange(i, eq), text.subrange(eq + 1, e))]
        } else {
            Seq::empty()
        }) + spec_remappings_from(text, e + 1)
    }
}

#[via_fn]
proof fn spec_remappings_from_decreases(text: Seq<char>, i: int) {
    if 0 <= i < text.len() {
        crate::strutil::lemma_find_char_bounds(text, '\n', i);
    }
}

/// The remappings a file's text declares.
pub open spec fn spec_remappings(text: Seq<char>) -> Seq<(Seq<char>, Seq<char>)> {
    spec_remappings_from(text, 0)
}

/// Read a remappings file's text into `name=path` pairs, one per line
/// carrying an `=`.
pub fn parse_remappings(content: &str) -> (r: Vec<(String, String)>)
    ensures
        pair_views(r@) == spec_remappings(content@),
{
    let n = content.unicode_len();
    let mut r: Vec<(String, String)> = Vec::new();
    let mut i: usize = 0;
    proof {
        assert(pair_views(r@) =~= Seq::<(Seq<char>, Seq<char>)>::empty());
    }
    while i < n
        invariant
            i <= n,
            n == content@.len(),
            spec_remappings(content@) == pair_views(r@) + spec_remappings_from(
                content@,
                i as int,
            ),
        decreases n - i,
    {
        let e = find_char_from(content, '\n', i);
        let eq = find_char_from(content, '=', i);
        let ghost before = pair_views(r@);
        if eq < e {
            let name = content.substring_char(i, eq);
            let target = content.substring_char(eq + 1, e);
            r.push((String::from_str(name), String::from_str(target)));
            proof {
                assert(pair_views(r@) =~~= before.push(
                    (content@.subrange(i as int, eq as int), content@.subrange(eq + 1, e as int)),
                ));
            }
        }
        proof {
            crate::strutil::lemma_find_char_bounds(content@, '\n', i as int);
            assert(spec_remappings_from(content@, i as int) =~~= (if eq < e {
                seq![
                    (content@.subrange(i as int, eq as int), content@.subrange(eq + 1, e as int)),
                ]
            } else {
                Seq::<(Seq<char>, Seq<char>)>::empty()
            }) + spec_remappings_from(content@, e + 1));
            assert(spec_remappings(content@) =~~= pair_views(r@) + spec_remappings_from(
                content@,
                e + 1,
            ));
        }
        if e >= n {
            proof {
                assert(spec_remappings_from(content@, n as int) =~= Seq::<
                    (Seq<char>, Seq<char>),
                >::empty());
                assert(spec_remappings_from(content@, e + 1) =~= Seq::<
                    (Seq<char>, Seq<char>),
                >::empty());
            }
            i = n;
        } else {
            i = e + 1;
        }
    }
    proof {
        assert(spec_remappings_from(content@, n as int) =~= Seq::<(Seq<char>, Seq<char>)>::empty());
        assert(spec_remappings(content@) =~~= pair_views(r@));
    }
    r
}

} // verus!
