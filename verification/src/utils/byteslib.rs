//! Storage-width arithmetic for contract fields: the byte width of the
//! elementary Solidity types, greedy packing of field widths into 32-byte
//! slots, and the exhaustive search for a tighter packing.

use crate::strutil::{
    all_digits, parse_u128, spec_starts_with, starts_with_str, str_eq, str_to_nat,
};
use itertools::Itertools;
use vstd::multiset::Multiset;
use vstd::prelude::*;

verus! {

/// The number a type name carries after the given prefix, when the name is
/// exactly that prefix followed by a canonically spelled decimal numeral:
/// a non-canonical spelling with a leading zero, such as `uint048`, names
/// no sized type and falls to the default width.
pub open spec fn spec_num_suffix(s: Seq<char>, p: Seq<char>) -> Option<nat> {
    if spec_starts_with(s, p) {
        let rest = s.skip(p.len() as int);
        if rest.len() > 0 && all_digits(rest) && rest[0] != '0' {
            Some(str_to_nat(rest))
        } else {
            None
        }
    } else {
        None
    }
}

/// The storage width, in bytes, of an elementary type name: 20 for an
/// address, 1 for a bool, `n` for `bytesN`, the byte count for sized
/// integers, and one full 32-byte slot for everything else.
pub open spec fn spec_type_width(s: Seq<char>) -> usize {
    if s == "address"@ {
        20
    } else if s == "bool"@ {
        1
    } else if s == "int"@ || s == "uint"@ {
        32
    } else if spec_num_suffix(s, "bytes"@) is Some && 1 <= spec_num_suffix(s, "bytes"@)->0 <= 32 {
        spec_num_suffix(s, "bytes"@)->0 as usize
    } else if spec_num_suffix(s, "uint"@) is Some && spec_num_suffix(s, "uint"@)->0 % 8 == 0 && 8
        <= spec_num_suffix(s, "uint"@)->0 <= 256 {
        (spec_num_suffix(s, "uint"@)->0 / 8) as usize
    } else if spec_num_suffix(s, "int"@) is Some && spec_num_suffix(s, "int"@)->0 % 8 == 0 && 8
        <= spec_num_suffix(s, "int"@)->0 <= 256 {
        (spec_num_suffix(s, "int"@)->0 / 8) as usize
    } else {
        32
    }
}

/// The width a suffixed type name denotes, when prefix and digits line up.
fn num_suffix(id: &str, p: &str) -> (r: Option<u128>)
    ensures
        r is Some ==> spec_num_suffix(id@, p@) is Some && r->0 == spec_num_suffix(id@, p@)->0,
        r is None ==> spec_num_suffix(id@, p@) is None || spec_num_suffix(id@, p@)->0
            > u128::MAX,
{
    if !starts_with_str(id, p) {
        return None;
    }
    let plen = p.unicode_len();
    let slen = id.unicode_len();
    let rest = id.substring_char(plen, slen);
    proof {
        assert(rest@ =~= id@.skip(p@.len() as int));
    }
    if rest.unicode_len() > 0 && rest.get_char(0) == '0' {
        return None;
    }
    parse_u128(rest)
}

/// The storage width, in bytes, of an elementary Solidity type name.
pub fn type_as_bytes(id: &str) -> (r: usize)
    ensures
        r == spec_type_width(id@),
        1 <= r <= 32,
{
    if str_eq(id, "address") {
        return 20;
    }
    if str_eq(id, "bool") {
        return 1;
    }
    if str_eq(id, "int") || str_eq(id, "uint") {
        return 32;
    }
    if let Some(n) = num_suffix(id, "bytes") {
        if 1 <= n && n <= 32 {
            return n as usize;
        }
    }
    if let Some(n) = num_suffix(id, "uint") {
        if n % 8 == 0 && 8 <= n && n <= 256 {
            return (n / 8) as usize;
        }
    }
    if let Some(n) = num_suffix(id, "int") {
        if n % 8 == 0 && 8 <= n && n <= 256 {
            return (n / 8) as usize;
        }
    }
    32
}

/// A power of two: no bit but the highest one is set.
pub open spec fn spec_is_power_of_2(n: u128) -> bool {
    n != 0 && n & (n - 1) as u128 == 0
}

/// Is `n` a power of two?
pub fn is_power_of_2(n: u128) -> (r: bool)
    ensures
        r == spec_is_power_of_2(n),
{
    n != 0 && n & (n - 1) == 0
}

/// The sum of a sequence of widths.
pub open spec fn sum_of(s: Seq<usize>) -> int
    decreases s.len(),
{
    if s.len() == 0 {
        0
    } else {
        sum_of(s.drop_last()) + s.last()
    }
}

proof fn lemma_sum_push(s: Seq<usize>, x: usize)
    ensures
        sum_of(s.push(x)) == sum_of(s) + x,
{
    assert(s.push(x).drop_last() =~= s);
    assert(s.push(x).last() == x);
}

proof fn lemma_sum_singleton(x: usize)
    ensures
        sum_of(seq![x]) == x,
{
    assert(seq![x].drop_last() =~= Seq::<usize>::empty());
    assert(seq![x].last() == x);
    assert(sum_of(Seq::<usize>::empty()) == 0);
}

proof fn lemma_sum_nonneg(s: Seq<usize>)
    ensures
        sum_of(s) >= 0,
    decreases s.len(),
{
    if s.len() > 0 {
        lemma_sum_nonneg(s.drop_last());
    }
}

/// First-fit packing in the given order: widths accumulate into the current
/// slot until the next one would push it past 32 bytes, which closes the
/// slot and opens a new one.
pub open spec fn spec_pack_rec(s: Seq<usize>, cur: Seq<usize>) -> Seq<Seq<usize>>
    decreases s.len(),
{
    if s.len() == 0 {
        if cur.len() == 0 {
            Seq::empty()
        } else {
            seq![cur]
        }
    } else if sum_of(cur) + s.first() <= 32 {
        spec_pack_rec(s.drop_first(), cur.push(s.first()))
    } else {
        seq![cur] + spec_pack_rec(s.drop_first(), seq![s.first()])
    }
}

/// What [`pack`] returns for the given widths.
pub open spec fn spec_pack(s: Seq<usize>) -> Seq<Seq<usize>> {
    spec_pack_rec(s, Seq::empty())
}

/// The widths of a packing, flattened back in order.
pub open spec fn flatten_of(s: Seq<Seq<usize>>) -> Seq<usize>
    decreases s.len(),
{
    if s.len() == 0 {
        Seq::empty()
    } else {
        s.first() + flatten_of(s.drop_first())
    }
}

/// Packing loses no width and keeps their order.
pub proof fn lemma_pack_rec_flatten(s: Seq<usize>, cur: Seq<usize>)
    ensures
        flatten_of(spec_pack_rec(s, cur)) == cur + s,
    decreases s.len(),
{
    if s.len() == 0 {
        if cur.len() == 0 {
            assert(flatten_of(spec_pack_rec(s, cur)) =~= cur + s);
        } else {
            assert(seq![cur].drop_first() =~= Seq::<Seq<usize>>::empty());
            assert(flatten_of(seq![cur].drop_first()) =~= Seq::<usize>::empty());
            assert(seq![cur].first() == cur);
            assert(flatten_of(seq![cur]) =~= cur + s);
        }
    } else if sum_of(cur) + s.first() <= 32 {
        lemma_pack_rec_flatten(s.drop_first(), cur.push(s.first()));
        assert(cur.push(s.first()) + s.drop_first() =~= cur + s);
    } else {
        lemma_pack_rec_flatten(s.drop_first(), seq![s.first()]);
        let tail = spec_pack_rec(s.drop_first(), seq![s.first()]);
        assert(flatten_of(seq![cur] + tail) =~= cur + flatten_of(tail)) by {
            assert((seq![cur] + tail).first() == cur);
            assert((seq![cur] + tail).drop_first() =~= tail);
        }
        assert(cur + (seq![s.first()] + s.drop_first()) =~= cur + s);
    }
}

/// With widths of at most 32 bytes each, every slot of the packing is
/// nonempty and fits in 32 bytes.
pub proof fn lemma_pack_rec_fits(s: Seq<usize>, cur: Seq<usize>)
    requires
        forall|i: int| 0 <= i < s.len() ==> #[trigger] s[i] <= 32,
        sum_of(cur) <= 32,
    ensures
        forall|k: int|
            0 <= k < spec_pack_rec(s, cur).len() ==> sum_of(#[trigger] spec_pack_rec(s, cur)[k])
                <= 32,
        forall|k: int|
            0 <= k < spec_pack_rec(s, cur).len() ==> (cur.len() > 0 || k > 0 || s.len() > 0)
                ==> #[trigger] spec_pack_rec(s, cur)[k].len() > 0,
    decreases s.len(),
{
    if s.len() == 0 {
    } else {
        assert forall|i: int| 0 <= i < s.drop_first().len() implies #[trigger] s.drop_first()[i]
            <= 32 by {
            assert(s.drop_first()[i] == s[i + 1]);
        }
        assert(s[0] <= 32);
        if sum_of(cur) + s.first() <= 32 {
            lemma_sum_push(cur, s.first());
            lemma_pack_rec_fits(s.drop_first(), cur.push(s.first()));
            let res = spec_pack_rec(s, cur);
            let sub = spec_pack_rec(s.drop_first(), cur.push(s.first()));
            assert(res == sub);
            assert forall|k: int| 0 <= k < res.len() implies sum_of(#[trigger] res[k]) <= 32 && (
            cur.len() > 0 || k > 0 || s.len() > 0 ==> res[k].len() > 0) by {
                assert(res[k] == sub[k]);
                assert(cur.push(s.first()).len() > 0);
            }
        } else {
            lemma_sum_singleton(s.first());
            assert(cur.len() > 0) by {
                if cur.len() == 0 {
                    assert(sum_of(cur) == 0);
                }
            }
            lemma_pack_rec_fits(s.drop_first(), seq![s.first()]);
            let res = spec_pack_rec(s, cur);
            let tail = spec_pack_rec(s.drop_first(), seq![s.first()]);
            let whole = seq![cur] + tail;
            assert(res == whole);
            assert forall|k: int| 0 <= k < res.len() implies sum_of(#[trigger] res[k]) <= 32 && (
            cur.len() > 0 || k > 0 || s.len() > 0 ==> res[k].len() > 0) by {
                if k > 0 {
                    assert(res[k] == tail[k - 1]);
                    assert(seq![s.first()].len() > 0);
                } else {
                    assert(res[0] == cur);
                }
            }
        }
    }
}

/// Greedy first-fit packing of widths into 32-byte slots, in the order
/// given.
pub fn pack(bytes: Vec<usize>) -> (r: Vec<Vec<usize>>)
    ensures
        r.deep_view() == spec_pack(bytes@),
{
    let mut packed: Vec<Vec<usize>> = Vec::new();
    let mut current: Vec<usize> = Vec::new();
    // the running slot total, saturated just past the slot size
    let mut current_sum: usize = 0;
    let n = bytes.len();
    let mut i: usize = 0;
    proof {
        assert(bytes@.skip(0) =~= bytes@);
        assert(packed.deep_view() =~= Seq::<Seq<usize>>::empty());
    }
    while i < n
        invariant
            i <= n,
            n == bytes@.len(),
            sum_of(current@) <= 32 ==> current_sum == sum_of(current@),
            sum_of(current@) > 32 ==> current_sum == 33,
            spec_pack(bytes@) == packed.deep_view() + spec_pack_rec(
                bytes@.skip(i as int),
                current@,
            ),
        decreases n - i,
    {
        let b = bytes[i];
        proof {
            assert(bytes@.skip(i as int).first() == bytes@[i as int]);
            assert(bytes@.skip(i as int).drop_first() =~= bytes@.skip(i + 1));
        }
        if current_sum <= 32 && b <= 32 - current_sum {
            proof {
                lemma_sum_nonneg(current@);
                lemma_sum_push(current@, b);
            }
            current.push(b);
            current_sum = current_sum + b;
        } else {
            let ghost old_packed = packed.deep_view();
            let ghost old_cur = current@;
            packed.push(current);
            current = Vec::new();
            current.push(b);
            current_sum = if b > 32 {
                33
            } else {
                b
            };
            proof {
                assert(current@ =~= seq![b]);
                lemma_sum_singleton(b);
                lemma_sum_nonneg(old_cur);
                assert(packed.deep_view() =~~= old_packed.push(old_cur));
                assert(old_packed.push(old_cur) + spec_pack_rec(bytes@.skip(i + 1), seq![b])
                    =~~= old_packed + (seq![old_cur] + spec_pack_rec(
                    bytes@.skip(i + 1),
                    seq![b],
                )));
            }
        }
        i += 1;
    }
    proof {
        assert(bytes@.skip(n as int) =~= Seq::<usize>::empty());
    }
    if current.len() > 0 {
        let ghost old_packed = packed.deep_view();
        let ghost cur_view = current@;
        packed.push(current);
        proof {
            assert(packed.deep_view() =~~= old_packed.push(cur_view));
            assert(old_packed + seq![cur_view] =~~= old_packed.push(cur_view));
        }
    }
    packed
}


/// The widths of a group that can share a slot: those under 32 bytes.
pub open spec fn filter_small(g: Seq<usize>) -> Seq<usize>
    decreases g.len(),
{
    if g.len() == 0 {
        Seq::empty()
    } else {
        filter_small(g.drop_last()) + if g.last() < 32 {
            seq![g.last()]
        } else {
            Seq::empty()
        }
    }
}

/// The widths of a group that need a full slot: those of 32 bytes or more.
pub open spec fn filter_big(g: Seq<usize>) -> Seq<usize>
    decreases g.len(),
{
    if g.len() == 0 {
        Seq::empty()
    } else {
        filter_big(g.drop_last()) + if g.last() >= 32 {
            seq![g.last()]
        } else {
            Seq::empty()
        }
    }
}

/// All packable widths of all groups, flattened in order.
pub open spec fn smalls_of(gs: Seq<Seq<usize>>) -> Seq<usize>
    decreases gs.len(),
{
    if gs.len() == 0 {
        Seq::empty()
    } else {
        smalls_of(gs.drop_last()) + filter_small(gs.last())
    }
}

/// The full-slot widths of the groups after the first packable one, each as
/// its own slot.
pub open spec fn assemble_bigs(gs: Seq<Seq<usize>>) -> Seq<Seq<usize>>
    decreases gs.len(),
{
    if gs.len() == 0 {
        Seq::empty()
    } else {
        (if filter_big(gs.first()).len() > 0 {
            seq![filter_big(gs.first())]
        } else {
            Seq::empty()
        }) + assemble_bigs(gs.drop_first())
    }
}

/// The candidate packing rebuilt over the original group order: every
/// full-slot width keeps a slot of its own in place, and the packed slots of
/// the sub-32 widths stand where the first packable width stood.
pub open spec fn assemble(gs: Seq<Seq<usize>>, packed: Seq<Seq<usize>>) -> Seq<Seq<usize>>
    decreases gs.len(),
{
    if gs.len() == 0 {
        Seq::empty()
    } else {
        (if filter_big(gs.first()).len() > 0 {
            seq![filter_big(gs.first())]
        } else {
            Seq::empty()
        }) + if filter_small(gs.first()).len() > 0 {
            packed + assemble_bigs(gs.drop_first())
        } else {
            assemble(gs.drop_first(), packed)
        }
    }
}

/// Every distinct reordering of the given widths, as itertools enumerates
/// them.
pub uninterp spec fn distinct_permutations_of(s: Seq<usize>) -> Seq<Seq<usize>>;

/// Relies on itertools' `permutations` and `unique`: the distinct
/// reorderings of the input, named by `distinct_permutations_of`.  Each
/// element selects every input position exactly once, so it carries the
/// input's multiset of widths; the enumeration is complete, since every
/// sequence with that multiset is one of the positional orderings and
/// `unique` removes only repeated occurrences, keeping the first of equal
/// reorderings; the first enumerated is the input order itself.
#[verifier::external_body]
fn distinct_permutations(bytes: Vec<usize>) -> (r: Vec<Vec<usize>>)
    ensures
        r.deep_view() == distinct_permutations_of(bytes@),
        forall|i: int|
            0 <= i < r@.len() ==> (#[trigger] r@[i])@.to_multiset() == bytes@.to_multiset(),
        forall|p: Seq<usize>|
            #[trigger] p.to_multiset() == bytes@.to_multiset() ==> r.deep_view().contains(p),
        r@.len() >= 1,
        r@[0]@ == bytes@,
{
    let n = bytes.len();
    bytes.into_iter().permutations(n).unique().collect()
}

/// The best packing among the first `n` enumerated permutations: the fewest
/// slots, and the first found among equals.
pub open spec fn best_packing(perms: Seq<Seq<usize>>, n: int) -> Option<Seq<Seq<usize>>>
    decreases n,
{
    if n <= 0 {
        None
    } else {
        let prev = best_packing(perms, n - 1);
        let cand = spec_pack(perms[n - 1]);
        if prev is Some && prev->0.len() <= cand.len() {
            prev
        } else {
            Some(cand)
        }
    }
}

/// What [`tightly_pack`] returns: the groups' packable widths are permuted
/// and greedily packed, the best such packing is put back in place of the
/// first packable width, and the whole is kept only when it uses strictly
/// fewer slots than one slot per original group.
pub open spec fn spec_tightly_pack(gs: Seq<Seq<usize>>) -> Option<Seq<Seq<usize>>> {
    let perms = distinct_permutations_of(smalls_of(gs));
    match best_packing(perms, perms.len() as int) {
        None => None,
        Some(p) => if assemble(gs, p).len() < gs.len() {
            Some(assemble(gs, p))
        } else {
            None
        },
    }
}

/// The packable widths of one group, in order.
fn filter_small_exec(g: &Vec<usize>) -> (r: Vec<usize>)
    ensures
        r@ == filter_small(g@),
{
    let mut r: Vec<usize> = Vec::new();
    let n = g.len();
    let mut i: usize = 0;
    proof {
        assert(g@.take(0) =~= Seq::<usize>::empty());
        assert(r@ =~= filter_small(g@.take(0)));
    }
    while i < n
        invariant
            i <= n,
            n == g@.len(),
            r@ == filter_small(g@.take(i as int)),
        decreases n - i,
    {
        proof {
            assert(g@.take(i + 1).drop_last() =~= g@.take(i as int));
            assert(g@.take(i + 1).last() == g@[i as int]);
        }
        if g[i] < 32 {
            r.push(g[i]);
            proof {
                assert(r@ =~= filter_small(g@.take(i + 1)));
            }
        } else {
            proof {
                assert(r@ =~= filter_small(g@.take(i + 1)));
            }
        }
        i += 1;
    }
    proof {
        assert(g@.take(n as int) =~= g@);
    }
    r
}

/// The full-slot widths of one group, in order.
fn filter_big_exec(g: &Vec<usize>) -> (r: Vec<usize>)
    ensures
        r@ == filter_big(g@),
{
    let mut r: Vec<usize> = Vec::new();
    let n = g.len();
    let mut i: usize = 0;
    proof {
        assert(g@.take(0) =~= Seq::<usize>::empty());
        assert(r@ =~= filter_big(g@.take(0)));
    }
    while i < n
        invariant
            i <= n,
            n == g@.len(),
            r@ == filter_big(g@.take(i as int)),
        decreases n - i,
    {
        proof {
            assert(g@.take(i + 1).drop_last() =~= g@.take(i as int));
            assert(g@.take(i + 1).last() == g@[i as int]);
        }
        if g[i] >= 32 {
            r.push(g[i]);
            proof {
                assert(r@ =~= filter_big(g@.take(i + 1)));
            }
        } else {
            proof {
                assert(r@ =~= filter_big(g@.take(i + 1)));
            }
        }
        i += 1;
    }
    proof {
        assert(g@.take(n as int) =~= g@);
    }
    r
}

/// Permute the packable widths of the groups, pack each permutation, keep
/// the best, and return the rebuilt packing when it beats one slot per
/// group; `None` when no reordering improves on that baseline.  The search
/// enumerates every distinct permutation, which is factorial in the number
/// of packable widths: acceptable only because a contract's storage fields
/// are few.
/// Enumerate every distinct reordering of the packable widths, first-fit
/// pack each, and keep the best: the fewest slots, the first found among
/// equals — a packing no reordering at all packs tighter than.
#[verifier::rlimit(80)]
fn best_over_permutations(smalls: Vec<usize>) -> (best: Vec<Vec<usize>>)
    ensures
        ({
            let perms = distinct_permutations_of(smalls@);
            best_packing(perms, perms.len() as int) == Some(best.deep_view())
        }),
        exists|q: Seq<usize>|
            #[trigger] q.to_multiset() == smalls@.to_multiset() && best.deep_view() == spec_pack(
                q,
            ),
        forall|p: Seq<usize>|
            #[trigger] p.to_multiset() == smalls@.to_multiset() ==> best.deep_view().len()
                <= spec_pack(p).len(),
{
    let mut perms = distinct_permutations(smalls);
    let ghost permsv = perms.deep_view();
    let ghost shallow = perms@;
    proof {
        assert forall|i: int| 0 <= i < shallow.len() implies #[trigger] permsv[i]
            =~= shallow[i]@ by {}
    }
    let mut best: Option<Vec<Vec<usize>>> = None;
    let mut done: usize = 0;
    let total = perms.len();
    proof {
        assert(permsv.skip(0) =~= permsv);
        assert(total >= 1);
    }
    while done < total
        invariant
            done <= total,
            total == permsv.len(),
            perms.deep_view() =~= permsv.skip(done as int),
            best is None <==> best_packing(permsv, done as int) is None,
            best is Some ==> best->0.deep_view() == best_packing(permsv, done as int)->0,
            best is Some ==> best->0@.len() == best_packing(permsv, done as int)->0.len(),
        decreases total - done,
    {
        let ghost pv_before = perms.deep_view();
        proof {
            assert(perms@.len() == pv_before.len());
            assert(pv_before.len() == permsv.skip(done as int).len());
        }
        let perm = perms.remove(0);
        proof {
            assert(perm.deep_view() == pv_before[0]);
            assert(pv_before[0] == permsv.skip(done as int)[0]);
            assert(permsv.skip(done as int)[0] == permsv[done as int]);
            assert(perm@ =~= perm.deep_view());
            assert(perms.deep_view() =~= pv_before.drop_first());
            assert(pv_before.drop_first() =~= permsv.skip(done + 1));
        }
        let cand = pack(perm);
        proof {
            assert(cand.deep_view() == spec_pack(permsv[done as int]));
            assert(cand@.len() == cand.deep_view().len());
        }
        let replace = match &best {
            None => true,
            Some(b) => cand.len() < b.len(),
        };
        if replace {
            best = Some(cand);
        }
        done += 1;
    }

    let best_vec = match best {
        None => {
            proof {
                lemma_best_packing_min(permsv, total as int);
                assert(false);
            }
            Vec::new()
        },
        Some(b) => b,
    };
    proof {
        lemma_best_packing_min(permsv, total as int);
        let bp = best_packing(permsv, total as int);
        let w0 = choose|w0: int| 0 <= w0 < total && bp->0 == spec_pack(#[trigger] permsv[w0]);
        assert(shallow[w0]@.to_multiset() == smalls@.to_multiset());
        assert(permsv[w0] =~= shallow[w0]@);
        assert(permsv[w0].to_multiset() == smalls@.to_multiset() && best_vec.deep_view()
            == spec_pack(permsv[w0]));
        assert forall|p: Seq<usize>|
            #[trigger] p.to_multiset() == smalls@.to_multiset() implies best_vec.deep_view().len()
            <= spec_pack(p).len() by {
            assert(permsv.contains(p));
            let w = choose|w: int| 0 <= w < permsv.len() && permsv[w] == p;
            assert(bp->0.len() <= spec_pack(permsv[w]).len());
        }
    }
    best_vec
}

#[verifier::rlimit(60)]
pub fn tightly_pack(loose_bytes: Vec<Vec<usize>>) -> (r: Option<Vec<Vec<usize>>>)
    ensures
        r is Some <==> spec_tightly_pack(loose_bytes.deep_view()) is Some,
        r is Some ==> r->0.deep_view() == spec_tightly_pack(loose_bytes.deep_view())->0,
        r is Some ==> r->0@.len() < loose_bytes@.len(),
        r is Some ==> forall|p: Seq<usize>|
            #[trigger] p.to_multiset() == smalls_of(loose_bytes.deep_view()).to_multiset()
                ==> r->0@.len() <= big_slot_count(loose_bytes.deep_view()) + spec_pack(p).len(),
        r is None ==> forall|p: Seq<usize>|
            #[trigger] p.to_multiset() == smalls_of(loose_bytes.deep_view()).to_multiset()
                ==> big_slot_count(loose_bytes.deep_view()) + spec_pack(p).len()
                >= loose_bytes@.len(),
        r is Some ==> forall|k: int|
            0 <= k < r->0.deep_view().len() ==> (forall|t: int|
                0 <= t < r->0.deep_view()[k].len() ==> #[trigger] r->0.deep_view()[k][t] < 32)
                ==> sum_of(#[trigger] r->0.deep_view()[k]) <= 32,
        r is Some ==> flatten_of(r->0.deep_view()).to_multiset() == flatten_of(
            loose_bytes.deep_view(),
        ).to_multiset(),
{
    let ghost gsv = loose_bytes.deep_view();
    let n = loose_bytes.len();

    // pool the packable widths, in group order
    let mut smalls: Vec<usize> = Vec::new();
    let mut i: usize = 0;
    proof {
        assert(gsv.take(0) =~= Seq::<Seq<usize>>::empty());
        assert(smalls@ =~= smalls_of(gsv.take(0)));
    }
    while i < n
        invariant
            i <= n,
            n == loose_bytes@.len(),
            gsv == loose_bytes.deep_view(),
            smalls@ == smalls_of(gsv.take(i as int)),
        decreases n - i,
    {
        let mut part = filter_small_exec(&loose_bytes[i]);
        proof {
            assert(gsv.take(i + 1).drop_last() =~= gsv.take(i as int));
            assert(gsv.take(i + 1).last() == gsv[i as int]);
            assert(loose_bytes@[i as int]@ =~= gsv[i as int]);
        }
        smalls.append(&mut part);
        proof {
            assert(smalls@ =~= smalls_of(gsv.take(i + 1)));
        }
        i += 1;
    }
    proof {
        assert(gsv.take(n as int) =~= gsv);
    }

    // try every distinct ordering of the pooled widths and keep the best
    let best_vec = best_over_permutations(smalls);
    let ghost packedv = best_vec.deep_view();
    let ghost q = choose|q: Seq<usize>|
        #[trigger] q.to_multiset() == smalls_of(gsv).to_multiset() && packedv == spec_pack(q);

    // rebuild over the original group order
    let mut out: Vec<Vec<usize>> = Vec::new();
    let mut inserted = false;
    let mut packed_left = Some(best_vec);
    let mut j: usize = 0;
    proof {
        assert(out.deep_view() =~= Seq::<Seq<usize>>::empty());
        assert(gsv.skip(0) =~= gsv);
        assert(assemble(gsv, packedv) =~= out.deep_view() + assemble(gsv.skip(0), packedv));
    }
    while j < n
        invariant
            j <= n,
            n == loose_bytes@.len(),
            gsv == loose_bytes.deep_view(),
            inserted <==> packed_left is None,
            packed_left is Some ==> packed_left->0.deep_view() == packedv,
            assemble(gsv, packedv) == out.deep_view() + (if inserted {
                assemble_bigs(gsv.skip(j as int))
            } else {
                assemble(gsv.skip(j as int), packedv)
            }),
        decreases n - j,
    {
        let was_inserted = inserted;
        let big = filter_big_exec(&loose_bytes[j]);
        let small_count = filter_small_exec(&loose_bytes[j]).len();
        let ghost out_start = out.deep_view();
        let ghost bg = filter_big(gsv[j as int]);
        let ghost bgpart = if bg.len() > 0 {
            seq![bg]
        } else {
            Seq::<Seq<usize>>::empty()
        };
        proof {
            assert(gsv.skip(j as int).first() == gsv[j as int]);
            assert(loose_bytes@[j as int]@ =~= gsv[j as int]);
            assert(gsv.skip(j as int).drop_first() =~= gsv.skip(j + 1));
            assert(big@ == bg);
        }
        if big.len() > 0 {
            let ghost bigv = big@;
            out.push(big);
            proof {
                assert(out.deep_view() =~~= out_start + bgpart);
            }
        } else {
            proof {
                assert(out.deep_view() =~~= out_start + bgpart);
            }
        }
        if !inserted && small_count > 0 {
            let mut ps = match packed_left {
                Some(ps) => ps,
                None => Vec::new(),
            };
            packed_left = None;
            let ghost mid = out.deep_view();
            let m = ps.len();
            let mut k: usize = 0;
            proof {
                assert(ps.deep_view() =~= packedv.skip(0));
                assert(packedv.take(0) =~= Seq::<Seq<usize>>::empty());
                assert(out.deep_view() =~~= mid + packedv.take(0));
            }
            while k < m
                invariant
                    k <= m,
                    m == packedv.len(),
                    ps.deep_view() =~= packedv.skip(k as int),
                    out.deep_view() =~= mid + packedv.take(k as int),
                decreases m - k,
            {
                let ghost psv_before = ps.deep_view();
                proof {
                    assert(ps@.len() == psv_before.len());
                    assert(psv_before.len() == packedv.skip(k as int).len());
                }
                let slot = ps.remove(0);
                proof {
                    assert(slot.deep_view() == psv_before[0]);
                    assert(psv_before[0] == packedv.skip(k as int)[0]);
                    assert(packedv.skip(k as int)[0] == packedv[k as int]);
                    assert(ps.deep_view() =~= psv_before.drop_first());
                    assert(psv_before.drop_first() =~= packedv.skip(k + 1));
                }
                let ghost slotv = slot.deep_view();
                out.push(slot);
                proof {
                    assert(out.deep_view() =~~= (mid + packedv.take(k as int)).push(
                        packedv[k as int],
                    ));
                    assert((mid + packedv.take(k as int)).push(packedv[k as int]) =~~= mid
                        + packedv.take(k + 1));
                }
                k += 1;
            }
            proof {
                assert(packedv.take(m as int) =~= packedv);
                assert(out.deep_view() =~~= (out_start + bgpart) + packedv);
            }
            inserted = true;
        }
        proof {
            if was_inserted {
                assert(assemble_bigs(gsv.skip(j as int)) =~~= bgpart + assemble_bigs(
                    gsv.skip(j + 1),
                ));
                assert(out_start + (bgpart + assemble_bigs(gsv.skip(j + 1))) =~~= (out_start
                    + bgpart) + assemble_bigs(gsv.skip(j + 1)));
            } else if small_count == 0 {
                assert(filter_small(gsv[j as int]).len() == 0);
                assert(assemble(gsv.skip(j as int), packedv) =~~= bgpart + assemble(
                    gsv.skip(j + 1),
                    packedv,
                ));
                assert(out_start + (bgpart + assemble(gsv.skip(j + 1), packedv)) =~~= (out_start
                    + bgpart) + assemble(gsv.skip(j + 1), packedv));
            } else {
                assert(filter_small(gsv[j as int]).len() > 0);
                assert(assemble(gsv.skip(j as int), packedv) =~~= bgpart + (packedv
                    + assemble_bigs(gsv.skip(j + 1))));
                assert(out_start + (bgpart + (packedv + assemble_bigs(gsv.skip(j + 1)))) =~~= ((
                out_start + bgpart) + packedv) + assemble_bigs(gsv.skip(j + 1)));
            }
        }
        j += 1;
    }
    proof {
        assert(gsv.skip(n as int) =~= Seq::<Seq<usize>>::empty());
        assert(assemble_bigs(Seq::<Seq<usize>>::empty()) =~= Seq::<Seq<usize>>::empty());
        assert(assemble(Seq::<Seq<usize>>::empty(), packedv) =~= Seq::<Seq<usize>>::empty());
        assert(assemble(gsv, packedv) =~~= out.deep_view());
        assert(out@.len() == out.deep_view().len());
        lemma_packed_assembly(gsv, packedv, q);
    }
    if out.len() < n {
        Some(out)
    } else {
        None
    }
}


/// How many groups demand a full slot of their own: those carrying a width
/// of 32 bytes or more.
pub open spec fn big_slot_count(gs: Seq<Seq<usize>>) -> int
    decreases gs.len(),
{
    if gs.len() == 0 {
        0
    } else {
        (if filter_big(gs.first()).len() > 0 {
            1int
        } else {
            0int
        }) + big_slot_count(gs.drop_first())
    }
}

/// Does some group carry a packable width?
pub open spec fn has_small_group(gs: Seq<Seq<usize>>) -> bool {
    exists|i: int| 0 <= i < gs.len() && filter_small(#[trigger] gs[i]).len() > 0
}

proof fn lemma_assemble_bigs_len(gs: Seq<Seq<usize>>)
    ensures
        assemble_bigs(gs).len() == big_slot_count(gs),
    decreases gs.len(),
{
    if gs.len() > 0 {
        lemma_assemble_bigs_len(gs.drop_first());
    }
}

proof fn lemma_has_small_shift(gs: Seq<Seq<usize>>)
    requires
        gs.len() > 0,
    ensures
        has_small_group(gs) <==> (filter_small(gs.first()).len() > 0 || has_small_group(
            gs.drop_first(),
        )),
{
    if has_small_group(gs) {
        let w = choose|w: int| 0 <= w < gs.len() && filter_small(#[trigger] gs[w]).len() > 0;
        if w > 0 {
            assert(filter_small(gs.drop_first()[w - 1]).len() > 0);
        }
    }
    if filter_small(gs.first()).len() > 0 {
        assert(filter_small(gs[0]).len() > 0);
    }
    if has_small_group(gs.drop_first()) {
        let w = choose|w: int|
            0 <= w < gs.drop_first().len() && filter_small(#[trigger] gs.drop_first()[w]).len()
                > 0;
        assert(filter_small(gs[w + 1]).len() > 0);
    }
}

/// The rebuilt packing's slot count: one slot per full-slot group, plus the
/// packed slots wherever some group contributed a packable width.
pub proof fn lemma_assemble_len(gs: Seq<Seq<usize>>, packed: Seq<Seq<usize>>)
    ensures
        assemble(gs, packed).len() == big_slot_count(gs) + if has_small_group(gs) {
            packed.len() as int
        } else {
            0int
        },
    decreases gs.len(),
{
    if gs.len() > 0 {
        lemma_has_small_shift(gs);
        if filter_small(gs.first()).len() > 0 {
            lemma_assemble_bigs_len(gs.drop_first());
            assert(filter_small(gs[0]).len() > 0);
        } else {
            lemma_assemble_len(gs.drop_first(), packed);
        }
    }
}

/// The best packing over the first `n` enumerated permutations is the
/// packing of one of them, and no larger than any of them.
proof fn lemma_best_packing_min(perms: Seq<Seq<usize>>, n: int)
    ensures
        n >= 1 ==> best_packing(perms, n) is Some,
        best_packing(perms, n) is Some ==> exists|i: int|
            0 <= i < n && best_packing(perms, n)->0 == spec_pack(#[trigger] perms[i]),
        forall|i: int|
            0 <= i < n ==> best_packing(perms, n)->0.len() <= spec_pack(
                #[trigger] perms[i],
            ).len(),
    decreases n,
{
    if n >= 1 {
        lemma_best_packing_min(perms, n - 1);
        let prev = best_packing(perms, n - 1);
        let cand = spec_pack(perms[n - 1]);
        if prev is Some && prev->0.len() <= cand.len() {
            let w = choose|w: int|
                0 <= w < n - 1 && prev->0 == spec_pack(#[trigger] perms[w]);
            assert(best_packing(perms, n)->0 == spec_pack(perms[w]));
        } else {
            assert(best_packing(perms, n)->0 == spec_pack(perms[n - 1]));
            assert forall|i: int|
                0 <= i < n implies best_packing(perms, n)->0.len() <= spec_pack(
                #[trigger] perms[i],
            ).len() by {
                if i < n - 1 {
                    assert(prev->0.len() <= spec_pack(perms[i]).len());
                }
            }
        }
    }
}

proof fn lemma_filter_small_elements(g: Seq<usize>)
    ensures
        forall|i: int| 0 <= i < filter_small(g).len() ==> #[trigger] filter_small(g)[i] < 32,
    decreases g.len(),
{
    if g.len() > 0 {
        lemma_filter_small_elements(g.drop_last());
        let whole = filter_small(g);
        let pre = filter_small(g.drop_last());
        assert forall|i: int| 0 <= i < whole.len() implies #[trigger] whole[i] < 32 by {
            if i < pre.len() {
                assert(whole[i] == pre[i]);
            }
        }
    }
}

proof fn lemma_filter_big_elements(g: Seq<usize>)
    ensures
        forall|i: int| 0 <= i < filter_big(g).len() ==> #[trigger] filter_big(g)[i] >= 32,
    decreases g.len(),
{
    if g.len() > 0 {
        lemma_filter_big_elements(g.drop_last());
        let whole = filter_big(g);
        let pre = filter_big(g.drop_last());
        assert forall|i: int| 0 <= i < whole.len() implies #[trigger] whole[i] >= 32 by {
            if i < pre.len() {
                assert(whole[i] == pre[i]);
            }
        }
    }
}

proof fn lemma_smalls_elements(gs: Seq<Seq<usize>>)
    ensures
        forall|i: int| 0 <= i < smalls_of(gs).len() ==> #[trigger] smalls_of(gs)[i] < 32,
    decreases gs.len(),
{
    if gs.len() > 0 {
        lemma_smalls_elements(gs.drop_last());
        lemma_filter_small_elements(gs.last());
        let whole = smalls_of(gs);
        let pre = smalls_of(gs.drop_last());
        let tail = filter_small(gs.last());
        assert forall|i: int| 0 <= i < whole.len() implies #[trigger] whole[i] < 32 by {
            if i < pre.len() {
                assert(whole[i] == pre[i]);
            } else {
                assert(whole[i] == tail[i - pre.len()]);
            }
        }
    }
}

proof fn lemma_smalls_empty(gs: Seq<Seq<usize>>)
    requires
        !has_small_group(gs),
    ensures
        smalls_of(gs).len() == 0,
    decreases gs.len(),
{
    if gs.len() > 0 {
        assert(!has_small_group(gs.drop_last())) by {
            if has_small_group(gs.drop_last()) {
                let w = choose|w: int|
                    0 <= w < gs.drop_last().len() && filter_small(
                        #[trigger] gs.drop_last()[w],
                    ).len() > 0;
                assert(filter_small(gs[w]).len() > 0);
            }
        }
        lemma_smalls_empty(gs.drop_last());
        assert(filter_small(gs.last()).len() == 0) by {
            if filter_small(gs.last()).len() > 0 {
                assert(filter_small(gs[gs.len() - 1]).len() > 0);
            }
        }
    }
}


proof fn lemma_flatten_concat(a: Seq<Seq<usize>>, b: Seq<Seq<usize>>)
    ensures
        flatten_of(a + b) == flatten_of(a) + flatten_of(b),
    decreases a.len(),
{
    if a.len() == 0 {
        assert(a + b =~= b);
        assert(flatten_of(a) + flatten_of(b) =~= flatten_of(b));
    } else {
        lemma_flatten_concat(a.drop_first(), b);
        assert((a + b).first() == a.first());
        assert((a + b).drop_first() =~= a.drop_first() + b);
        assert(a.first() + (flatten_of(a.drop_first()) + flatten_of(b)) =~= (a.first()
            + flatten_of(a.drop_first())) + flatten_of(b));
    }
}

/// A group's widths are exactly its full-slot widths and its packable
/// widths together.
proof fn lemma_group_parts(g: Seq<usize>)
    ensures
        g.to_multiset() =~= filter_big(g).to_multiset().add(filter_small(g).to_multiset()),
    decreases g.len(),
{
    broadcast use vstd::seq_lib::group_to_multiset_ensures;
    broadcast use vstd::multiset::group_multiset_axioms;

    if g.len() == 0 {
        assert(filter_big(g).to_multiset() =~= Multiset::<usize>::empty());
        assert(filter_small(g).to_multiset() =~= Multiset::<usize>::empty());
    } else {
        let pre = g.drop_last();
        let w = g.last();
        lemma_group_parts(pre);
        assert(g =~= pre.push(w));
        assert(pre.push(w).to_multiset() =~= pre.to_multiset().insert(w));
        if w < 32 {
            assert(filter_small(g) =~= filter_small(pre).push(w));
            assert(filter_small(pre).push(w).to_multiset() =~= filter_small(
                pre,
            ).to_multiset().insert(w));
            assert(filter_big(g) =~= filter_big(pre));
        } else {
            assert(filter_big(g) =~= filter_big(pre).push(w));
            assert(filter_big(pre).push(w).to_multiset() =~= filter_big(
                pre,
            ).to_multiset().insert(w));
            assert(filter_small(g) =~= filter_small(pre));
        }
    }
}

/// The packable widths, decomposed at the first group.
proof fn lemma_smalls_first(gs: Seq<Seq<usize>>)
    requires
        gs.len() > 0,
    ensures
        smalls_of(gs).to_multiset() =~= filter_small(gs.first()).to_multiset().add(
            smalls_of(gs.drop_first()).to_multiset(),
        ),
    decreases gs.len(),
{
    broadcast use vstd::seq_lib::lemma_multiset_commutative;
    broadcast use vstd::seq_lib::group_to_multiset_ensures;
    broadcast use vstd::multiset::group_multiset_axioms;

    if gs.len() == 1 {
        assert(smalls_of(gs.drop_last()) =~= Seq::<usize>::empty());
        assert(smalls_of(gs) =~= Seq::<usize>::empty() + filter_small(gs.last()));
        assert(smalls_of(gs) =~= filter_small(gs[0]));
        assert(gs.drop_first().len() == 0);
        assert(smalls_of(gs.drop_first()).to_multiset() =~= Multiset::<usize>::empty());
    } else {
        let pre = gs.drop_last();
        let w = gs.last();
        lemma_smalls_first(pre);
        assert((smalls_of(pre) + filter_small(w)).to_multiset() =~= smalls_of(
            pre,
        ).to_multiset().add(filter_small(w).to_multiset()));
        assert(pre.first() == gs.first());
        let rest = gs.drop_first();
        assert(rest.len() > 0);
        assert(rest.drop_last() =~= pre.drop_first());
        assert(rest.last() == w);
        assert(smalls_of(rest) == smalls_of(pre.drop_first()) + filter_small(w));
        assert((smalls_of(pre.drop_first()) + filter_small(w)).to_multiset() =~= smalls_of(
            pre.drop_first(),
        ).to_multiset().add(filter_small(w).to_multiset()));
    }
}

/// All widths of the groups are exactly the full-slot widths and the
/// packable widths together.
proof fn lemma_flat_parts(gs: Seq<Seq<usize>>)
    ensures
        flatten_of(gs).to_multiset() =~= flatten_of(assemble_bigs(gs)).to_multiset().add(
            smalls_of(gs).to_multiset(),
        ),
    decreases gs.len(),
{
    broadcast use vstd::seq_lib::lemma_multiset_commutative;
    broadcast use vstd::seq_lib::group_to_multiset_ensures;
    broadcast use vstd::multiset::group_multiset_axioms;

    if gs.len() == 0 {
        assert(smalls_of(gs).to_multiset() =~= Multiset::<usize>::empty());
        assert(flatten_of(assemble_bigs(gs)).to_multiset() =~= Multiset::<usize>::empty());
    } else {
        let g0 = gs.first();
        let rest = gs.drop_first();
        lemma_flat_parts(rest);
        lemma_group_parts(g0);
        lemma_smalls_first(gs);
        assert((g0 + flatten_of(rest)).to_multiset() =~= g0.to_multiset().add(
            flatten_of(rest).to_multiset(),
        ));
        let bg = filter_big(g0);
        if bg.len() > 0 {
            assert(assemble_bigs(gs) == seq![bg] + assemble_bigs(rest));
            lemma_flatten_concat(seq![bg], assemble_bigs(rest));
            assert(flatten_of(seq![bg]) =~= bg) by {
                assert(seq![bg].drop_first() =~= Seq::<Seq<usize>>::empty());
                assert(flatten_of(seq![bg].drop_first()) =~= Seq::<usize>::empty());
                assert(bg + Seq::<usize>::empty() =~= bg);
            }
            assert((bg + flatten_of(assemble_bigs(rest))).to_multiset() =~= bg.to_multiset().add(
                flatten_of(assemble_bigs(rest)).to_multiset(),
            ));
            assert(flatten_of(assemble_bigs(gs)) == flatten_of(seq![bg]) + flatten_of(
                assemble_bigs(rest),
            ));
        } else {
            assert(assemble_bigs(gs) =~= assemble_bigs(rest)) by {
                assert(Seq::<Seq<usize>>::empty() + assemble_bigs(rest) =~= assemble_bigs(
                    rest,
                ));
            }
            assert(bg.to_multiset() =~= Multiset::<usize>::empty());
        }
    }
}

/// The rebuilt packing's widths: the full-slot widths, plus the packed
/// widths wherever some group contributed a packable width.
proof fn lemma_assemble_flat(gs: Seq<Seq<usize>>, packed: Seq<Seq<usize>>)
    ensures
        flatten_of(assemble(gs, packed)).to_multiset() =~= flatten_of(
            assemble_bigs(gs),
        ).to_multiset().add(
            if has_small_group(gs) {
                flatten_of(packed).to_multiset()
            } else {
                Multiset::<usize>::empty()
            },
        ),
    decreases gs.len(),
{
    broadcast use vstd::seq_lib::lemma_multiset_commutative;
    broadcast use vstd::seq_lib::group_to_multiset_ensures;
    broadcast use vstd::multiset::group_multiset_axioms;

    if gs.len() == 0 {
        assert(flatten_of(assemble(gs, packed)).to_multiset() =~= Multiset::<usize>::empty());
        assert(flatten_of(assemble_bigs(gs)).to_multiset() =~= Multiset::<usize>::empty());
    } else {
        let g0 = gs.first();
        let rest = gs.drop_first();
        let bg = filter_big(g0);
        let bgpart = if bg.len() > 0 {
            seq![bg]
        } else {
            Seq::<Seq<usize>>::empty()
        };
        lemma_has_small_shift(gs);
        if filter_small(g0).len() > 0 {
            assert(has_small_group(gs)) by {
                assert(filter_small(gs[0]).len() > 0);
            }
            assert(assemble(gs, packed) == bgpart + (packed + assemble_bigs(rest)));
            lemma_flatten_concat(bgpart, packed + assemble_bigs(rest));
            lemma_flatten_concat(packed, assemble_bigs(rest));
            assert(assemble_bigs(gs) == bgpart + assemble_bigs(rest));
            lemma_flatten_concat(bgpart, assemble_bigs(rest));
        } else {
            lemma_assemble_flat(rest, packed);
            assert(assemble(gs, packed) == bgpart + assemble(rest, packed));
            lemma_flatten_concat(bgpart, assemble(rest, packed));
            assert(assemble_bigs(gs) == bgpart + assemble_bigs(rest));
            lemma_flatten_concat(bgpart, assemble_bigs(rest));
        }
    }
}


proof fn lemma_spec_pack_empty()
    ensures
        spec_pack(Seq::<usize>::empty()).len() == 0,
{
}

/// A reordering of widths under 32 bytes holds widths under 32 bytes.
proof fn lemma_perm_small(p: Seq<usize>, s: Seq<usize>)
    requires
        p.to_multiset() == s.to_multiset(),
        forall|i: int| 0 <= i < s.len() ==> #[trigger] s[i] < 32,
    ensures
        forall|i: int| 0 <= i < p.len() ==> #[trigger] p[i] < 32,
        p.len() == s.len(),
{
    broadcast use vstd::seq_lib::group_to_multiset_ensures;

    assert(p.len() == p.to_multiset().len());
    assert(s.len() == s.to_multiset().len());
    assert forall|i: int| 0 <= i < p.len() implies #[trigger] p[i] < 32 by {
        assert(p.contains(p[i]));
        assert(p.to_multiset().count(p[i]) > 0);
        assert(s.contains(p[i]));
        let j = choose|j: int| 0 <= j < s.len() && s[j] == p[i];
        assert(s[j] < 32);
    }
}

proof fn lemma_assemble_bigs_slots(gs: Seq<Seq<usize>>)
    ensures
        forall|k: int|
            0 <= k < assemble_bigs(gs).len() ==> exists|j: int|
                0 <= j < gs.len() && #[trigger] assemble_bigs(gs)[k] == filter_big(gs[j])
                    && filter_big(gs[j]).len() > 0,
    decreases gs.len(),
{
    if gs.len() > 0 {
        lemma_assemble_bigs_slots(gs.drop_first());
        let whole = assemble_bigs(gs);
        let rest = assemble_bigs(gs.drop_first());
        let off: int = if filter_big(gs.first()).len() > 0 {
            1
        } else {
            0
        };
        assert forall|k: int|
            0 <= k < whole.len() implies exists|j: int|
            0 <= j < gs.len() && #[trigger] whole[k] == filter_big(gs[j]) && filter_big(
                gs[j],
            ).len() > 0 by {
            if k < off {
                assert(whole[k] == filter_big(gs[0]));
            } else {
                assert(whole[k] == rest[k - off]);
                let j = choose|j: int|
                    0 <= j < gs.drop_first().len() && rest[k - off] == filter_big(
                        #[trigger] gs.drop_first()[j],
                    ) && filter_big(gs.drop_first()[j]).len() > 0;
                assert(gs.drop_first()[j] == gs[j + 1]);
                assert(whole[k] == filter_big(gs[j + 1]));
            }
        }
    }
}

/// Every slot of the rebuilt packing is either one group's full-slot
/// widths, kept whole, or one of the packed slots.
proof fn lemma_assemble_slots(gs: Seq<Seq<usize>>, packed: Seq<Seq<usize>>)
    ensures
        forall|k: int|
            0 <= k < assemble(gs, packed).len() ==> (exists|j: int|
                0 <= j < gs.len() && #[trigger] assemble(gs, packed)[k] == filter_big(gs[j])
                    && filter_big(gs[j]).len() > 0) || packed.contains(assemble(gs, packed)[k]),
    decreases gs.len(),
{
    if gs.len() > 0 {
        let whole = assemble(gs, packed);
        let off: int = if filter_big(gs.first()).len() > 0 {
            1
        } else {
            0
        };
        if filter_small(gs.first()).len() > 0 {
            lemma_assemble_bigs_slots(gs.drop_first());
            let bigs = assemble_bigs(gs.drop_first());
            assert forall|k: int|
                0 <= k < whole.len() implies (exists|j: int|
                0 <= j < gs.len() && #[trigger] whole[k] == filter_big(gs[j]) && filter_big(
                    gs[j],
                ).len() > 0) || packed.contains(whole[k]) by {
                if k < off {
                    assert(whole[k] == filter_big(gs[0]));
                } else if k < off + packed.len() {
                    assert(whole[k] == packed[k - off]);
                } else {
                    assert(whole[k] == bigs[k - off - packed.len()]);
                    let j = choose|j: int|
                        0 <= j < gs.drop_first().len() && bigs[k - off - packed.len()]
                            == filter_big(#[trigger] gs.drop_first()[j]) && filter_big(
                            gs.drop_first()[j],
                        ).len() > 0;
                    assert(gs.drop_first()[j] == gs[j + 1]);
                    assert(whole[k] == filter_big(gs[j + 1]));
                }
            }
        } else {
            lemma_assemble_slots(gs.drop_first(), packed);
            let rest = assemble(gs.drop_first(), packed);
            assert forall|k: int|
                0 <= k < whole.len() implies (exists|j: int|
                0 <= j < gs.len() && #[trigger] whole[k] == filter_big(gs[j]) && filter_big(
                    gs[j],
                ).len() > 0) || packed.contains(whole[k]) by {
                if k < off {
                    assert(whole[k] == filter_big(gs[0]));
                } else {
                    assert(whole[k] == rest[k - off]);
                    if exists|j: int|
                        0 <= j < gs.drop_first().len() && rest[k - off] == filter_big(
                            #[trigger] gs.drop_first()[j],
                        ) && filter_big(gs.drop_first()[j]).len() > 0 {
                        let j = choose|j: int|
                            0 <= j < gs.drop_first().len() && rest[k - off] == filter_big(
                                #[trigger] gs.drop_first()[j],
                            ) && filter_big(gs.drop_first()[j]).len() > 0;
                        assert(gs.drop_first()[j] == gs[j + 1]);
                        assert(whole[k] == filter_big(gs[j + 1]));
                    }
                }
            }
        }
    }
}

/// What holds of the rebuilt packing when the packed slots are a minimal
/// first-fit packing of some reordering of the groups' packable widths:
/// its slot count, its minimality over every reordering, that every slot
/// of packable widths fits in 32 bytes, and that it carries exactly the
/// groups' widths.
proof fn lemma_packed_assembly(gs: Seq<Seq<usize>>, best: Seq<Seq<usize>>, q: Seq<usize>)
    requires
        q.to_multiset() == smalls_of(gs).to_multiset(),
        best == spec_pack(q),
        forall|p: Seq<usize>|
            #[trigger] p.to_multiset() == smalls_of(gs).to_multiset() ==> best.len()
                <= spec_pack(p).len(),
    ensures
        assemble(gs, best).len() == big_slot_count(gs) + if has_small_group(gs) {
            best.len() as int
        } else {
            0int
        },
        forall|p: Seq<usize>|
            #[trigger] p.to_multiset() == smalls_of(gs).to_multiset() ==> assemble(
                gs,
                best,
            ).len() <= big_slot_count(gs) + spec_pack(p).len(),
        forall|k: int|
            0 <= k < assemble(gs, best).len() ==> (forall|t: int|
                0 <= t < assemble(gs, best)[k].len() ==> #[trigger] assemble(gs, best)[k][t]
                    < 32) ==> sum_of(#[trigger] assemble(gs, best)[k]) <= 32,
        flatten_of(assemble(gs, best)).to_multiset() == flatten_of(gs).to_multiset(),
{
    broadcast use vstd::multiset::group_multiset_axioms;

    lemma_assemble_len(gs, best);
    lemma_smalls_elements(gs);
    lemma_perm_small(q, smalls_of(gs));

    // minimality: a reordering that is not packed tighter than the best
    assert forall|p: Seq<usize>|
        #[trigger] p.to_multiset() == smalls_of(gs).to_multiset() implies assemble(
        gs,
        best,
    ).len() <= big_slot_count(gs) + spec_pack(p).len() by {
        if !has_small_group(gs) {
            lemma_smalls_empty(gs);
            broadcast use vstd::seq_lib::group_to_multiset_ensures;

            assert(p.len() == p.to_multiset().len());
            assert(smalls_of(gs).len() == smalls_of(gs).to_multiset().len());
            assert(p.len() == smalls_of(gs).len());
            assert(p =~= Seq::<usize>::empty());
            lemma_spec_pack_empty();
        }
    }

    // fits: a slot of packable widths is one of the packed slots
    lemma_assemble_slots(gs, best);
    lemma_pack_rec_fits(q, Seq::<usize>::empty());
    assert forall|k: int|
        0 <= k < assemble(gs, best).len() && (forall|t: int|
            0 <= t < assemble(gs, best)[k].len() ==> #[trigger] assemble(gs, best)[k][t]
                < 32) implies sum_of(#[trigger] assemble(gs, best)[k]) <= 32 by {
        let slot = assemble(gs, best)[k];
        if exists|j: int|
            0 <= j < gs.len() && slot == filter_big(#[trigger] gs[j]) && filter_big(
                gs[j],
            ).len() > 0 {
            let j = choose|j: int|
                0 <= j < gs.len() && slot == filter_big(#[trigger] gs[j]) && filter_big(
                    gs[j],
                ).len() > 0;
            lemma_filter_big_elements(gs[j]);
            assert(slot[0] >= 32);
            assert(slot[0] < 32);
        } else {
            assert(best.contains(slot));
            let t = choose|t: int| 0 <= t < best.len() && best[t] == slot;
            assert(sum_of(spec_pack(q)[t]) <= 32);
        }
    }

    // the widths are preserved
    lemma_assemble_flat(gs, best);
    lemma_flat_parts(gs);
    lemma_pack_rec_flatten(q, Seq::<usize>::empty());
    assert(flatten_of(spec_pack(q)) =~= q);
    if has_small_group(gs) {
        assert(flatten_of(assemble(gs, best)).to_multiset() =~= flatten_of(gs).to_multiset());
    } else {
        lemma_smalls_empty(gs);
        broadcast use vstd::seq_lib::group_to_multiset_ensures;

        assert(smalls_of(gs).to_multiset() =~= Multiset::<usize>::empty());
        assert(flatten_of(assemble(gs, best)).to_multiset() =~= flatten_of(gs).to_multiset());
    }
}

} // verus!
