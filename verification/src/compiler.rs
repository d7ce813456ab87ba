//! Selecting the Solidity sources of a project.  The caller enumerates
//! candidate file paths; the logic here decides which of them are contract
//! sources worth compiling, leaving tests and scripts aside.

use crate::strutil::{ends_with_str, spec_ends_with, str_eq};
use crate::walker::spec_name_start;
use vstd::prelude::*;

verus! {

/// Is this a dependency or build directory whose contents a project walk
/// leaves unexplored: one named `lib`, `node_modules`, `out`, `cache` or
/// `target`?
pub open spec fn spec_is_excluded_dir(path: Seq<char>) -> bool {
    let name = path.skip(spec_name_start(path));
    ||| name == "lib"@
    ||| name == "node_modules"@
    ||| name == "out"@
    ||| name == "cache"@
    ||| name == "target"@
}

/// Is this a dependency or build directory a project walk does not descend
/// into?
pub fn is_excluded_dir(path: &str) -> (r: bool)
    ensures
        r == spec_is_excluded_dir(path@),
{
    let start = crate::walker::name_start(path);
    let n = path.unicode_len();
    let name = path.substring_char(start, n);
    proof {
        assert(name@ =~= path@.skip(spec_name_start(path@)));
    }
    str_eq(name, "lib") || str_eq(name, "node_modules") || str_eq(name, "out") || str_eq(
        name,
        "cache",
    ) || str_eq(name, "target")
}

/// Is this path a contract source: a file named `<something>.sol`, and
/// neither a test (`.t.sol`) nor a script (`.s.sol`)?
pub open spec fn spec_is_sol_file(path: Seq<char>) -> bool {
    let name = path.skip(spec_name_start(path));
    &&& name.len() > 4
    &&& spec_ends_with(name, ".sol"@)
    &&& !spec_ends_with(name, ".t.sol"@)
    &&& !spec_ends_with(name, ".s.sol"@)
}

/// Is this path a contract source, rather than a test or a script?
pub fn is_sol_file(path: &str) -> (r: bool)
    ensures
        r == spec_is_sol_file(path@),
{
    let start = crate::walker::name_start(path);
    let n = path.unicode_len();
    let name = path.substring_char(start, n);
    proof {
        assert(name@ =~= path@.skip(spec_name_start(path@)));
    }
    if name.unicode_len() <= 4 {
        return false;
    }
    ends_with_str(name, ".sol") && !ends_with_str(name, ".t.sol") && !ends_with_str(
        name,
        ".s.sol",
    )
}

/// The contract sources among a list of candidate paths, in order.
pub open spec fn spec_sol_files(paths: Seq<String>) -> Seq<String>
    decreases paths.len(),
{
    if paths.len() == 0 {
        Seq::empty()
    } else {
        spec_sol_files(paths.drop_last()) + if spec_is_sol_file(paths.last()@) {
            seq![paths.last()]
        } else {
            Seq::empty()
        }
    }
}

/// Keep the contract sources among the candidate files of a project, in
/// the order they were enumerated.
pub fn get_sol_files(paths: Vec<String>) -> (r: Vec<String>)
    ensures
        r@ == spec_sol_files(paths@),
{
    let mut r: Vec<String> = Vec::new();
    let n = paths.len();
    let mut i: usize = 0;
    proof {
        assert(paths@.take(0) =~= Seq::<String>::empty());
        assert(r@ =~= spec_sol_files(paths@.take(0)));
    }
    while i < n
        invariant
            i <= n,
            n == paths@.len(),
            r@ == spec_sol_files(paths@.take(i as int)),
        decreases n - i,
    {
        proof {
            assert(paths@.take(i + 1).drop_last() =~= paths@.take(i as int));
            assert(paths@.take(i + 1).last() == paths@[i as int]);
        }
        if is_sol_file(paths[i].as_str()) {
            let kept = paths[i].clone();
            r.push(kept);
            proof {
                assert(r@ =~= spec_sol_files(paths@.take(i + 1)));
            }
        } else {
            proof {
                assert(r@ =~= spec_sol_files(paths@.take(i + 1)));
            }
        }
        i += 1;
    }
    proof {
        assert(paths@.take(n as int) =~= paths@);
    }
    r
}

} // verus!
