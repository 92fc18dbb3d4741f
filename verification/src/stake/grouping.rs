//! The claims that a release hands out, grouped by their address.

use crate::keyed::{lemma_sum_insert, lemma_sum_nonneg, seq_sum};
use crate::stake::claim::{
    amounts_for, group_sum, groups, groups_fit, has_claim_of, has_release_for, lemma_sum_prefix, lemma_sum_push,
    vesting_of, Claim, ClaimView, ReleaseData, ReleaseView, TokenReleaseInfo,
};
use crate::text::{
    addr_before, lemma_addr_before_asymmetric, lemma_addr_before_irreflexive, lemma_addr_before_total,
    lemma_addr_before_transitive, side_of, Side,
};
use crate::types::views;
use itertools::Itertools;
use vstd::prelude::*;

verus! {

/// The claims of `s` stand in the order of their addresses; claims of one address stand together.
#[verifier::opaque]
pub open spec fn by_address(s: Seq<ClaimView>) -> bool {
    forall|i: int, j: int| 0 <= i < j < s.len() ==> !addr_before(#[trigger] s[j].addr, #[trigger] s[i].addr)
}

/// The views of the claims of every group.
pub open spec fn run_views(groups: Seq<Vec<Claim>>) -> Seq<Seq<ClaimView>> {
    Seq::new(groups.len(), |j: int| views(groups[j]@))
}

/// The number of claims in the first `j` of `runs`.
pub open spec fn start_of(runs: Seq<Seq<ClaimView>>, j: int) -> int
    decreases j,
{
    if j <= 0 {
        0
    } else {
        start_of(runs, j - 1) + runs[j - 1].len()
    }
}

/// `runs` are the runs of `s`: the claims of `s` in their order, cut wherever
/// the address changes, and nowhere else.
#[verifier::opaque]
pub open spec fn is_runs(s: Seq<ClaimView>, runs: Seq<Seq<ClaimView>>) -> bool {
    &&& start_of(runs, runs.len() as int) == s.len()
    &&& forall|j: int| 0 <= j < runs.len() ==> (#[trigger] runs[j]).len() > 0
    &&& forall|j: int, k: int|
        0 <= j < runs.len() && 0 <= k < runs[j].len() ==> (#[trigger] runs[j][k]) == s[start_of(runs, j) + k]
    &&& forall|j: int, k: int|
        0 <= j < runs.len() && 0 <= k < runs[j].len() ==> (#[trigger] runs[j][k]).addr == runs[j][0].addr
    &&& forall|j: int| 0 < j < runs.len() ==> (#[trigger] runs[j])[0].addr != runs[j - 1][0].addr
}

/// `group_by` of itertools, keyed by the address of a claim: the claims in
/// their order, as groups of consecutive claims of one address. A group ends
/// where the next claim is of another address, and only there; no group is
/// empty.
#[verifier::external_body]
fn runs_by_address(claims: &Vec<Claim>) -> (r: Vec<Vec<Claim>>)
    ensures
        is_runs(views(claims@), run_views(r@)),
{
    claims.iter().group_by(|claim| &claim.addr).into_iter().map(|(_, group)| group.cloned().collect()).collect()
}

/// One more claim adds its amount to the sum of its address and to no other.
proof fn lemma_one_more(list: Seq<ClaimView>, i: int, a: Seq<char>, v: bool)
    requires
        0 <= i < list.len(),
    ensures
        group_sum(list.take(i + 1), a, v) == group_sum(list.take(i), a, v) + amounts_for(list, a, v)[i],
{
    assert(amounts_for(list.take(i + 1), a, v) =~= amounts_for(list.take(i), a, v).push(amounts_for(list, a, v)[i]));
    lemma_sum_push(amounts_for(list.take(i), a, v), amounts_for(list, a, v)[i]);
}

/// The claims of `list` in the order of their addresses.
fn sort_by_address(list: &Vec<Claim>) -> (r: Vec<Claim>)
    ensures
        by_address(views(r@)),
        forall|a: Seq<char>, v: bool| #[trigger] group_sum(views(r@), a, v) == group_sum(views(list@), a, v),
        forall|a: Seq<char>| #[trigger] has_claim_of(views(r@), a) == has_claim_of(views(list@), a),
{
    let ghost all = views(list@);
    let mut sorted: Vec<Claim> = Vec::new();
    let mut i: usize = 0;
    proof {
        reveal(by_address);
        assert forall|a: Seq<char>, v: bool| #[trigger]
            group_sum(views(sorted@), a, v) == group_sum(all.take(0), a, v) by {
            assert(amounts_for(views(sorted@), a, v) =~= amounts_for(all.take(0), a, v));
        }
    }
    while i < list.len()
        invariant
            i <= list@.len(),
            all == views(list@),
            by_address(views(sorted@)),
            forall|a: Seq<char>, v: bool| #[trigger]
                group_sum(views(sorted@), a, v) == group_sum(all.take(i as int), a, v),
            forall|a: Seq<char>| #[trigger] has_claim_of(views(sorted@), a) == has_claim_of(all.take(i as int), a),
        decreases list@.len() - i,
    {
        let c = &list[i];
        let ghost before = views(sorted@);
        let mut p: usize = 0;
        proof {
            reveal(by_address);
        }
        while p < sorted.len() && !matches!(side_of(&c.addr, &sorted[p].addr), Side::Before)
            invariant
                p <= sorted@.len(),
                before == views(sorted@),
                forall|x: int| 0 <= x < p ==> !addr_before(c.addr@, (#[trigger] before[x]).addr),
            decreases sorted@.len() - p,
        {
            p = p + 1;
        }
        let d = c.duplicate();
        sorted.insert(p, d);
        proof {
            let after = views(sorted@);
            assert(after =~= before.insert(p as int, c@));
            assert(all[i as int] == c@);
            assert forall|x: int, y: int| 0 <= x < y < after.len() implies !addr_before(
                #[trigger] after[y].addr,
                #[trigger] after[x].addr,
            ) by {
                let x0 = if x < p { x } else { x - 1 };
                let y0 = if y < p { y } else { y - 1 };
                if x == p as int {
                    // the claim put in stands before one that it comes before, or that comes after such a one
                    assert(after[y] == before[y0]);
                    assert(addr_before(c.addr@, before[p as int].addr));
                    if addr_before(before[y0].addr, c.addr@) {
                        lemma_addr_before_transitive(before[y0].addr, c.addr@, before[p as int].addr);
                        if y0 == p as int {
                            lemma_addr_before_asymmetric(before[y0].addr, c.addr@);
                        }
                    }
                } else if y == p as int {
                    assert(after[x] == before[x0]);
                } else {
                    assert(after[x] == before[x0] && after[y] == before[y0]);
                }
            }
            assert forall|a: Seq<char>, v: bool| #[trigger]
                group_sum(after, a, v) == group_sum(all.take(i + 1), a, v) by {
                let add = amounts_for(all, a, v)[i as int];
                assert(amounts_for(after, a, v) =~= amounts_for(before, a, v).insert(p as int, add));
                lemma_sum_insert(amounts_for(before, a, v), p as int, add);
                lemma_one_more(all, i as int, a, v);
                assert(group_sum(before, a, v) == group_sum(all.take(i as int), a, v));
            }
            assert forall|a: Seq<char>| #[trigger] has_claim_of(after, a) == has_claim_of(all.take(i + 1), a) by {
                let head = all.take(i as int);
                let more = all.take(i + 1);
                assert(has_claim_of(before, a) == has_claim_of(head, a));
                if has_claim_of(before, a) {
                    let k = choose|k: int| 0 <= k < before.len() && (#[trigger] before[k]).addr == a;
                    let k1 = if k < p { k } else { k + 1 };
                    assert(after[k1].addr == a);
                    let h = choose|h: int| 0 <= h < head.len() && (#[trigger] head[h]).addr == a;
                    assert(more[h].addr == a);
                }
                if c.addr@ == a {
                    assert(after[p as int].addr == a);
                    assert(more[i as int].addr == a);
                }
                if has_claim_of(after, a) && c.addr@ != a {
                    let k = choose|k: int| 0 <= k < after.len() && (#[trigger] after[k]).addr == a;
                    let k0 = if k < p { k } else { k - 1 };
                    assert(before[k0].addr == a);
                }
                if has_claim_of(more, a) && c.addr@ != a {
                    let h = choose|h: int| 0 <= h < more.len() && (#[trigger] more[h]).addr == a;
                    assert(head[h].addr == a);
                }
            }
        }
        i = i + 1;
    }
    proof {
        assert(all.take(all.len() as int) =~= all);
    }
    sorted
}

/// The first `j` runs hold no more claims than all of them, and each run begins before it ends.
proof fn lemma_starts(runs: Seq<Seq<ClaimView>>, j: int, n: int)
    requires
        0 <= j <= n <= runs.len(),
    ensures
        0 <= start_of(runs, j) <= start_of(runs, n),
        j < n ==> start_of(runs, j) + runs[j].len() <= start_of(runs, n),
    decreases n - j,
{
    lemma_start_nonneg(runs, j);
    if j < n {
        lemma_starts(runs, j + 1, n);
    }
}

/// The number of claims in the first `j` runs is not negative.
proof fn lemma_start_nonneg(runs: Seq<Seq<ClaimView>>, j: int)
    requires
        0 <= j <= runs.len(),
    ensures
        0 <= start_of(runs, j),
    decreases j,
{
    if j > 0 {
        lemma_start_nonneg(runs, j - 1);
    }
}

/// Every claim lies in one of the runs.
proof fn lemma_run_of(runs: Seq<Seq<ClaimView>>, k: int, n: int) -> (j: int)
    requires
        0 <= n <= runs.len(),
        0 <= k < start_of(runs, n),
    ensures
        0 <= j < n,
        start_of(runs, j) <= k < start_of(runs, j) + runs[j].len(),
    decreases n,
{
    if k >= start_of(runs, n - 1) {
        n - 1
    } else {
        lemma_run_of(runs, k, n - 1)
    }
}

/// The run at `j` begins with the claim at its place in `s`.
proof fn lemma_head_at(s: Seq<ClaimView>, runs: Seq<Seq<ClaimView>>, j: int)
    requires
        is_runs(s, runs),
        0 <= j < runs.len(),
    ensures
        0 <= start_of(runs, j) < s.len(),
        runs[j][0] == s[start_of(runs, j)],
        j > 0 ==> start_of(runs, j - 1) < start_of(runs, j),
        j > 0 ==> runs[j][0].addr != runs[j - 1][0].addr,
{
    reveal(is_runs);
    lemma_starts(runs, j, runs.len() as int);
    assert(runs[j].len() > 0);
    assert(runs[j][0] == s[start_of(runs, j) + 0]);
    if j > 0 {
        assert(runs[j - 1].len() > 0);
    }
}

/// Of two claims in the order of their addresses the later one is not of an earlier address.
proof fn lemma_in_order(s: Seq<ClaimView>, i: int, j: int)
    requires
        by_address(s),
        0 <= i < j < s.len(),
    ensures
        !addr_before(s[j].addr, s[i].addr),
{
    reveal(by_address);
}

/// The address of a run comes after that of the run before it.
proof fn lemma_next_head(s: Seq<ClaimView>, runs: Seq<Seq<ClaimView>>, y: int)
    requires
        by_address(s),
        is_runs(s, runs),
        0 < y < runs.len(),
    ensures
        addr_before(runs[y - 1][0].addr, runs[y][0].addr),
{
    lemma_head_at(s, runs, y - 1);
    lemma_head_at(s, runs, y);
    let lo = start_of(runs, y - 1);
    let hi = start_of(runs, y);
    lemma_in_order(s, lo, hi);
    lemma_addr_before_total(s[lo].addr, s[hi].addr);
}

/// The addresses of the runs of claims that stand in the order of their addresses ascend.
proof fn lemma_heads_ascend(s: Seq<ClaimView>, runs: Seq<Seq<ClaimView>>, x: int, y: int)
    requires
        by_address(s),
        is_runs(s, runs),
        0 <= x < y < runs.len(),
    ensures
        addr_before(runs[x][0].addr, runs[y][0].addr),
    decreases y - x,
{
    lemma_next_head(s, runs, y);
    if x < y - 1 {
        lemma_heads_ascend(s, runs, x, y - 1);
        lemma_addr_before_transitive(runs[x][0].addr, runs[y - 1][0].addr, runs[y][0].addr);
    }
}

/// A sum of numbers that are zero before `lo` and from `hi` on is the sum of those between.
proof fn lemma_sum_between(a: Seq<int>, lo: int, hi: int)
    requires
        0 <= lo <= hi <= a.len(),
        forall|k: int| 0 <= k < a.len() && !(lo <= k < hi) ==> a[k] == 0,
    ensures
        seq_sum(a) == seq_sum(a.subrange(lo, hi)),
    decreases a.len(),
{
    if a.len() == 0 {
        assert(a.subrange(lo, hi) =~= a);
    } else if hi == a.len() {
        if lo == hi {
            assert(a.subrange(lo, hi) =~= Seq::<int>::empty());
            lemma_sum_between(a.drop_last(), lo - 1, lo - 1);
        } else {
            assert(a.subrange(lo, hi).drop_last() =~= a.drop_last().subrange(lo, hi - 1));
            assert(a.subrange(lo, hi).last() == a.last());
            lemma_sum_between(a.drop_last(), lo, hi - 1);
        }
    } else {
        assert(a.drop_last().subrange(lo, hi) =~= a.subrange(lo, hi));
        lemma_sum_between(a.drop_last(), lo, hi);
    }
}

/// The claim at `k` lies in a run, and is of the address of that run.
proof fn lemma_claim_in_run(s: Seq<ClaimView>, runs: Seq<Seq<ClaimView>>, k: int) -> (j: int)
    requires
        is_runs(s, runs),
        0 <= k < s.len(),
    ensures
        0 <= j < runs.len(),
        start_of(runs, j) <= k < start_of(runs, j) + runs[j].len(),
        s[k].addr == runs[j][0].addr,
{
    reveal(is_runs);
    let j = lemma_run_of(runs, k, runs.len() as int);
    let at = k - start_of(runs, j);
    assert(runs[j][at] == s[start_of(runs, j) + at]);
    assert(runs[j][at].addr == runs[j][0].addr);
    j
}

/// The claims of the run at `j` are one after the other in `s`, all of one address.
proof fn lemma_run_shape(s: Seq<ClaimView>, runs: Seq<Seq<ClaimView>>, j: int)
    requires
        is_runs(s, runs),
        0 <= j < runs.len(),
    ensures
        runs[j].len() > 0,
        0 <= start_of(runs, j),
        start_of(runs, j) + runs[j].len() <= s.len(),
        runs[j] == s.subrange(start_of(runs, j), start_of(runs, j) + runs[j].len()),
        forall|k: int| 0 <= k < runs[j].len() ==> (#[trigger] runs[j][k]).addr == runs[j][0].addr,
{
    reveal(is_runs);
    lemma_starts(runs, j, runs.len() as int);
    let lo = start_of(runs, j);
    let part = s.subrange(lo, lo + runs[j].len());
    assert forall|k: int| 0 <= k < runs[j].len() implies runs[j][k] == part[k] by {
        assert(runs[j][k] == s[lo + k]);
    }
    assert(runs[j] =~= part);
}

/// Two runs are of two addresses.
proof fn lemma_runs_differ(s: Seq<ClaimView>, runs: Seq<Seq<ClaimView>>, x: int, j: int)
    requires
        by_address(s),
        is_runs(s, runs),
        0 <= x < runs.len(),
        0 <= j < runs.len(),
        x != j,
    ensures
        runs[x][0].addr != runs[j][0].addr,
{
    if j < x {
        lemma_heads_ascend(s, runs, j, x);
    } else {
        lemma_heads_ascend(s, runs, x, j);
    }
    lemma_addr_before_irreflexive(runs[x][0].addr);
}

/// The sum that the claims of `s` hold for the address of the run at `x` is
/// the sum of that run, and no other run is of that address.
proof fn lemma_run_holds_all(s: Seq<ClaimView>, runs: Seq<Seq<ClaimView>>, x: int, v: bool)
    requires
        by_address(s),
        is_runs(s, runs),
        0 <= x < runs.len(),
    ensures
        group_sum(s, runs[x][0].addr, v) == group_sum(runs[x], runs[x][0].addr, v),
        has_claim_of(s, runs[x][0].addr),
{
    let a = runs[x][0].addr;
    let lo = start_of(runs, x);
    let hi = lo + runs[x].len();
    lemma_run_shape(s, runs, x);
    let all = amounts_for(s, a, v);
    assert forall|k: int| 0 <= k < all.len() && !(lo <= k < hi) implies all[k] == 0 by {
        let j = lemma_claim_in_run(s, runs, k);
        lemma_runs_differ(s, runs, x, j);
    }
    lemma_sum_between(all, lo, hi);
    assert(all.subrange(lo, hi) =~= amounts_for(s.subrange(lo, hi), a, v));
    assert(s[lo] == runs[x][0]);
}

/// The sums of the group `group`, whose claims are all of one address.
fn sum_group(group: &Vec<Claim>) -> (r: (u128, u128))
    requires
        group@.len() > 0,
        forall|k: int| 0 <= k < group@.len() ==> (#[trigger] group@[k]).addr@ == group@[0].addr@,
        group_sum(views(group@), group@[0].addr@, false) <= u128::MAX,
        group_sum(views(group@), group@[0].addr@, true) <= u128::MAX,
    ensures
        r.0 == group_sum(views(group@), group@[0].addr@, false),
        r.1 == group_sum(views(group@), group@[0].addr@, true),
{
    let ghost a = group@[0].addr@;
    let ghost la = amounts_for(views(group@), a, false);
    let ghost va = amounts_for(views(group@), a, true);
    let mut liquid: u128 = 0;
    let mut vesting: u128 = 0;
    let mut k: usize = 0;
    proof {
        assert(la.take(0) =~= Seq::<int>::empty());
        assert(va.take(0) =~= Seq::<int>::empty());
    }
    while k < group.len()
        invariant
            k <= group@.len(),
            a == group@[0].addr@,
            forall|x: int| 0 <= x < group@.len() ==> (#[trigger] group@[x]).addr@ == a,
            la == amounts_for(views(group@), a, false),
            va == amounts_for(views(group@), a, true),
            seq_sum(la) <= u128::MAX,
            seq_sum(va) <= u128::MAX,
            liquid == seq_sum(la.take(k as int)),
            vesting == seq_sum(va.take(k as int)),
        decreases group@.len() - k,
    {
        proof {
            assert(la.take(k + 1) =~= la.take(k as int).push(la[k as int]));
            assert(va.take(k + 1) =~= va.take(k as int).push(va[k as int]));
            lemma_sum_push(la.take(k as int), la[k as int]);
            lemma_sum_push(va.take(k as int), va[k as int]);
            lemma_sum_prefix(la, k + 1);
            lemma_sum_prefix(va, k + 1);
            assert(group@[k as int].addr@ == a);
            assert(la[k as int] == group@[k as int].amount);
            assert(va[k as int] == vesting_of(group@[k as int]@));
        }
        liquid = liquid + group[k].amount;
        vesting = vesting + group[k].vesting();
        k = k + 1;
    }
    proof {
        assert(la.take(la.len() as int) =~= la);
        assert(va.take(va.len() as int) =~= va);
    }
    (liquid, vesting)
}

/// Groups the claims of `released` by address and sums each group: the
/// claims are put in the order of their addresses, cut into runs of one
/// address each, and every run is summed.
pub fn group_releases(released: &Vec<Claim>) -> (r: ReleaseData)
    requires
        groups_fit(views(released@)),
    ensures
        groups(views(released@), false, views(r.liquid_releases@)),
        groups(views(released@), true, views(r.vesting_releases@)),
{
    let ghost rel = views(released@);
    let sorted = sort_by_address(released);
    let ghost s = views(sorted@);
    let groups_of = runs_by_address(&sorted);
    let ghost runs = run_views(groups_of@);
    let mut liquid: Vec<TokenReleaseInfo> = Vec::new();
    let mut vesting: Vec<TokenReleaseInfo> = Vec::new();
    let mut j: usize = 0;
    while j < groups_of.len()
        invariant
            j <= groups_of@.len(),
            rel == views(released@),
            s == views(sorted@),
            runs == run_views(groups_of@),
            by_address(s),
            is_runs(s, runs),
            groups_fit(rel),
            forall|a: Seq<char>, v: bool| #[trigger] group_sum(s, a, v) == group_sum(rel, a, v),
            liquid@.len() == j,
            vesting@.len() == j,
            forall|x: int|
                0 <= x < j ==> (#[trigger] liquid@[x])@ == (ReleaseView {
                    addr: runs[x][0].addr,
                    amount: group_sum(rel, runs[x][0].addr, false) as u128,
                }),
            forall|x: int|
                0 <= x < j ==> (#[trigger] vesting@[x])@ == (ReleaseView {
                    addr: runs[x][0].addr,
                    amount: group_sum(rel, runs[x][0].addr, true) as u128,
                }),
        decreases groups_of@.len() - j,
    {
        let group = &groups_of[j];
        proof {
            let a = runs[j as int][0].addr;
            assert(runs[j as int] == views(group@));
            lemma_run_shape(s, runs, j as int);
            assert forall|k: int| 0 <= k < group@.len() implies (#[trigger] group@[k]).addr@ == group@[0].addr@ by {
                assert(runs[j as int][k].addr == runs[j as int][0].addr);
            }
            lemma_run_holds_all(s, runs, j as int, false);
            lemma_run_holds_all(s, runs, j as int, true);
            assert(group_sum(s, a, false) == group_sum(rel, a, false));
            assert(group_sum(s, a, true) == group_sum(rel, a, true));
            assert(seq_sum(amounts_for(rel, a, false)) <= u128::MAX);
            assert(seq_sum(amounts_for(rel, a, true)) <= u128::MAX);
        }
        let (l, v) = sum_group(group);
        liquid.push(TokenReleaseInfo { addr: group[0].addr.clone(), amount: l });
        vesting.push(TokenReleaseInfo { addr: group[0].addr.clone(), amount: v });
        j = j + 1;
    }
    proof {
        lemma_grouped(rel, s, runs, views(liquid@), false);
        lemma_grouped(rel, s, runs, views(vesting@), true);
    }
    ReleaseData { liquid_releases: liquid, vesting_releases: vesting }
}

/// One item for every run, with the address of the run and the sum that the
/// claims hold for it, is the grouping of the claims.
proof fn lemma_grouped(
    rel: Seq<ClaimView>,
    s: Seq<ClaimView>,
    runs: Seq<Seq<ClaimView>>,
    out: Seq<ReleaseView>,
    v: bool,
)
    requires
        by_address(s),
        is_runs(s, runs),
        forall|a: Seq<char>, w: bool| #[trigger] group_sum(s, a, w) == group_sum(rel, a, w),
        forall|a: Seq<char>| #[trigger] has_claim_of(s, a) == has_claim_of(rel, a),
        out.len() == runs.len(),
        forall|x: int|
            0 <= x < out.len() ==> #[trigger] out[x] == (ReleaseView {
                addr: runs[x][0].addr,
                amount: group_sum(rel, runs[x][0].addr, v) as u128,
            }),
        forall|a: Seq<char>, w: bool| seq_sum(#[trigger] amounts_for(rel, a, w)) <= u128::MAX,
    ensures
        groups(rel, v, out),
{
    assert forall|x: int, y: int| 0 <= x < y < out.len() implies addr_before(
        #[trigger] out[x].addr,
        #[trigger] out[y].addr,
    ) by {
        lemma_heads_ascend(s, runs, x, y);
    }
    assert forall|x: int| 0 <= x < out.len() implies (#[trigger] out[x]).amount == seq_sum(
        amounts_for(rel, out[x].addr, v),
    ) && has_claim_of(rel, out[x].addr) by {
        lemma_run_holds_all(s, runs, x, v);
        let a = runs[x][0].addr;
        lemma_amounts_nonneg(rel, a, v);
        assert(has_claim_of(s, a) == has_claim_of(rel, a));
    }
    assert forall|k: int| 0 <= k < rel.len() implies has_release_for(out, (#[trigger] rel[k]).addr) by {
        let a = rel[k].addr;
        assert(has_claim_of(rel, a));
        assert(has_claim_of(s, a) == has_claim_of(rel, a));
        let p = choose|p: int| 0 <= p < s.len() && (#[trigger] s[p]).addr == a;
        let j = lemma_claim_in_run(s, runs, p);
        assert(out[j].addr == a);
    }
}

/// The sum that claims hold for an address is not negative.
proof fn lemma_amounts_nonneg(s: Seq<ClaimView>, a: Seq<char>, v: bool)
    ensures
        group_sum(s, a, v) >= 0,
{
    lemma_sum_nonneg(amounts_for(s, a, v));
}

} // verus!
