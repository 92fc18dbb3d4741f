//! The ledger of claims: unbonded tokens, each waiting for its release.

use crate::decimal::{lemma_portion_bounds, portion_of, share_of, Decimal, DECIMAL_FRACTIONAL};
use crate::keyed::{seq_sum, AddrMap};
use crate::text::{addr_before, lemma_addr_before_asymmetric, lemma_addr_before_irreflexive, lemma_addr_before_transitive, side_of, Side};
use crate::time::Expiration;
use crate::types::{views, BlockInfo};
use vstd::prelude::*;

verus! {

/// Unbonded tokens of one address that are released at one time.
#[derive(Clone, Debug, PartialEq, Eq)]
pub struct Claim {
    /// The address that owns the claim.
    pub addr: String,
    /// The liquid tokens in the claim.
    pub amount: u128,
    /// The vesting tokens in the claim.
    pub vesting_amount: Option<u128>,
    /// When the tokens are released.
    pub release_at: Expiration,
    /// The height of the block in which the claim was made.
    pub creation_height: u64,
}

pub struct ClaimView {
    pub addr: Seq<char>,
    pub amount: u128,
    pub vesting_amount: Option<u128>,
    pub release_at: u64,
    pub creation_height: u64,
}

impl View for Claim {
    type V = ClaimView;

    open spec fn view(&self) -> ClaimView {
        ClaimView {
            addr: self.addr@,
            amount: self.amount,
            vesting_amount: self.vesting_amount,
            release_at: self.release_at.at.nanos,
            creation_height: self.creation_height,
        }
    }
}

/// The vesting tokens in the claim: none where none are named.
pub open spec fn vesting_of(c: ClaimView) -> u128 {
    match c.vesting_amount {
        Some(v) => v,
        None => 0,
    }
}

impl Claim {
    pub fn new(addr: String, amount: u128, vesting_amount: u128, released: Expiration, creation_height: u64) -> (c:
        Claim)
        ensures
            c@ == (ClaimView {
                addr: addr@,
                amount,
                vesting_amount: Some(vesting_amount),
                release_at: released.at.nanos,
                creation_height,
            }),
    {
        Claim { addr, amount, vesting_amount: Some(vesting_amount), release_at: released, creation_height }
    }

    /// A copy of the claim.
    pub fn duplicate(&self) -> (c: Claim)
        ensures
            c@ == self@,
    {
        Claim {
            addr: self.addr.clone(),
            amount: self.amount,
            vesting_amount: self.vesting_amount,
            release_at: self.release_at,
            creation_height: self.creation_height,
        }
    }

    /// The vesting tokens in the claim.
    pub fn vesting(&self) -> (v: u128)
        ensures
            v == vesting_of(self@),
    {
        match self.vesting_amount {
            Some(v) => v,
            None => 0,
        }
    }
}

/// Tokens to be released to one address.
#[derive(Clone, Debug, PartialEq, Eq)]
pub struct TokenReleaseInfo {
    pub addr: String,
    pub amount: u128,
}

pub struct ReleaseView {
    pub addr: Seq<char>,
    pub amount: u128,
}

impl View for TokenReleaseInfo {
    type V = ReleaseView;

    open spec fn view(&self) -> ReleaseView {
        ReleaseView { addr: self.addr@, amount: self.amount }
    }
}

/// What a release hands out: for each address the liquid tokens, and for each the vesting ones.
#[derive(Clone, Debug, PartialEq, Eq)]
pub struct ReleaseData {
    pub liquid_releases: Vec<TokenReleaseInfo>,
    pub vesting_releases: Vec<TokenReleaseInfo>,
}

/// The order of the claims: earlier release first, and of two claims released
/// at the same time the one of the earlier address.
pub open spec fn claim_before(a: ClaimView, b: ClaimView) -> bool {
    a.release_at < b.release_at || (a.release_at == b.release_at && addr_before(a.addr, b.addr))
}

/// The claims of `s` are in order, so no two are of the same address and release.
pub open spec fn claims_ascend(s: Seq<ClaimView>) -> bool {
    forall|i: int, j: int| 0 <= i < j < s.len() ==> claim_before(#[trigger] s[i], #[trigger] s[j])
}

/// Which claims an operation takes: those of `addr` (of any address, for
/// `None`) that are released after `after` and not after `until`.
pub struct Pick {
    pub addr: Option<Seq<char>>,
    pub after: Option<u64>,
    pub until: Option<u64>,
}

/// The pick `p` takes the claim `c`.
pub open spec fn picks(p: Pick, c: ClaimView) -> bool {
    &&& p.addr is Some ==> c.addr == p.addr->0
    &&& p.after is Some ==> c.release_at > p.after->0
    &&& p.until is Some ==> c.release_at <= p.until->0
}

/// The first `limit` claims of `s` that `p` takes, in order.
pub open spec fn taken(s: Seq<ClaimView>, p: Pick, limit: int) -> Seq<ClaimView>
    decreases s.len(),
{
    if s.len() == 0 {
        Seq::empty()
    } else if limit > 0 && picks(p, s[0]) {
        seq![s[0]] + taken(s.drop_first(), p, limit - 1)
    } else {
        taken(s.drop_first(), p, limit)
    }
}

/// The claims of `s` that are left when the first `limit` that `p` takes are gone.
pub open spec fn kept(s: Seq<ClaimView>, p: Pick, limit: int) -> Seq<ClaimView>
    decreases s.len(),
{
    if s.len() == 0 {
        Seq::empty()
    } else if limit > 0 && picks(p, s[0]) {
        kept(s.drop_first(), p, limit - 1)
    } else {
        seq![s[0]] + kept(s.drop_first(), p, limit)
    }
}

/// The liquid tokens of the claims in `s`, one number for each.
pub open spec fn liquid_amounts(s: Seq<ClaimView>) -> Seq<int> {
    Seq::new(s.len(), |i: int| s[i].amount as int)
}

/// The vesting tokens of the claims in `s`, one number for each.
pub open spec fn vesting_amounts(s: Seq<ClaimView>) -> Seq<int> {
    Seq::new(s.len(), |i: int| vesting_of(s[i]) as int)
}

/// The sum of the liquid tokens in `s`.
pub open spec fn liquid_sum(s: Seq<ClaimView>) -> int {
    seq_sum(liquid_amounts(s))
}

/// The sum of the vesting tokens in `s`.
pub open spec fn vesting_sum(s: Seq<ClaimView>) -> int {
    seq_sum(vesting_amounts(s))
}

/// The claim `c` after `amount` liquid and `vesting` vesting tokens were merged into it.
pub open spec fn merged(c: ClaimView, amount: u128, vesting: u128) -> ClaimView {
    ClaimView {
        amount: (c.amount + amount) as u128,
        vesting_amount: Some((vesting_of(c) + vesting) as u128),
        ..c
    }
}

/// The claim `c` after the portion `portion` was taken from both of its amounts.
pub open spec fn slashed_claim(c: ClaimView, portion: Decimal) -> ClaimView {
    ClaimView {
        amount: (c.amount - portion_of(c.amount, portion)) as u128,
        vesting_amount: Some((vesting_of(c) - portion_of(vesting_of(c), portion)) as u128),
        ..c
    }
}

/// The claims of `s` after the portion `portion` was taken from those of `addr`.
pub open spec fn slashed_claims(s: Seq<ClaimView>, addr: Seq<char>, portion: Decimal) -> Seq<ClaimView> {
    Seq::new(
        s.len(),
        |i: int|
            if s[i].addr == addr {
                slashed_claim(s[i], portion)
            } else {
                s[i]
            },
    )
}

/// What a slash takes from the claims in `s`: of each claim of `addr` the
/// portion of its liquid tokens (or of its vesting ones), rounded down.
pub open spec fn slash_amounts(s: Seq<ClaimView>, addr: Seq<char>, portion: Decimal, vesting: bool) -> Seq<int> {
    Seq::new(
        s.len(),
        |i: int|
            if s[i].addr == addr {
                if vesting {
                    portion_of(vesting_of(s[i]), portion)
                } else {
                    portion_of(s[i].amount, portion)
                }
            } else {
                0
            },
    )
}

/// The tokens that the claims in `s` hold for `addr`, one number for each
/// claim: the liquid ones, or the vesting ones.
pub open spec fn amounts_for(s: Seq<ClaimView>, addr: Seq<char>, vesting: bool) -> Seq<int> {
    Seq::new(
        s.len(),
        |i: int|
            if s[i].addr == addr {
                if vesting {
                    vesting_of(s[i]) as int
                } else {
                    s[i].amount as int
                }
            } else {
                0
            },
    )
}

/// All tokens, liquid and vesting, that the claims in `s` hold for `addr`.
pub open spec fn held_for(s: Seq<ClaimView>, addr: Seq<char>) -> int {
    seq_sum(amounts_for(s, addr, false)) + seq_sum(amounts_for(s, addr, true))
}

/// Some claim in `s` is of `addr`.
pub open spec fn has_claim_of(s: Seq<ClaimView>, addr: Seq<char>) -> bool {
    exists|k: int| 0 <= k < s.len() && (#[trigger] s[k]).addr == addr
}

/// Some item of `out` is for `addr`.
pub open spec fn has_release_for(out: Seq<ReleaseView>, addr: Seq<char>) -> bool {
    exists|i: int| 0 <= i < out.len() && (#[trigger] out[i]).addr == addr
}

/// `out` holds, in ascending order of the addresses, one item for each
/// address that has a claim in `released`, with the sum of the liquid tokens
/// of its claims there (or of the vesting ones).
pub open spec fn groups(released: Seq<ClaimView>, vesting: bool, out: Seq<ReleaseView>) -> bool {
    &&& forall|i: int, j: int| 0 <= i < j < out.len() ==> addr_before(#[trigger] out[i].addr, #[trigger] out[j].addr)
    &&& forall|i: int|
        0 <= i < out.len() ==> (#[trigger] out[i]).amount == seq_sum(amounts_for(released, out[i].addr, vesting))
            && has_claim_of(released, out[i].addr)
    &&& forall|k: int| 0 <= k < released.len() ==> has_release_for(out, (#[trigger] released[k]).addr)
}

/// The sum grows by what is pushed.
pub proof fn lemma_sum_push(s: Seq<int>, x: int)
    ensures
        seq_sum(s.push(x)) == seq_sum(s) + x,
{
    assert(s.push(x).drop_last() =~= s);
}

/// A sum of non-negative numbers does not shrink when the sequence grows.
pub proof fn lemma_sum_prefix(s: Seq<int>, i: int)
    requires
        0 <= i <= s.len(),
        forall|j: int| 0 <= j < s.len() ==> s[j] >= 0,
    ensures
        0 <= seq_sum(s.take(i)) <= seq_sum(s),
    decreases s.len() - i,
{
    if i == s.len() {
        assert(s.take(i) =~= s);
        crate::keyed::lemma_sum_nonneg(s);
    } else {
        lemma_sum_prefix(s, i + 1);
        assert(s.take(i + 1) =~= s.take(i).push(s[i]));
        lemma_sum_push(s.take(i), s[i]);
        crate::keyed::lemma_sum_nonneg(s.take(i));
    }
}

/// All claims, in order.
#[derive(Clone, Debug, PartialEq, Eq)]
pub struct Claims {
    pub claims: Vec<Claim>,
}

impl View for Claims {
    type V = Seq<ClaimView>;

    open spec fn view(&self) -> Seq<ClaimView> {
        views(self.claims@)
    }
}

/// Whether `a` comes before, at or after the place of a claim of `addr` released at `release`.
fn claim_side(a: &Claim, addr: &String, release: u64) -> (r: Side)
    ensures
        r == Side::Before <==> (a@.release_at < release || (a@.release_at == release && addr_before(a@.addr, addr@))),
        r == Side::Same <==> (a@.release_at == release && a@.addr == addr@),
        r == Side::After <==> (release < a@.release_at || (a@.release_at == release && addr_before(addr@, a@.addr))),
{
    if a.release_at.at.nanos < release {
        Side::Before
    } else if a.release_at.at.nanos > release {
        Side::After
    } else {
        side_of(&a.addr, addr)
    }
}

impl Claims {
    /// The claims are in order.
    pub open spec fn wf(&self) -> bool {
        claims_ascend(self@)
    }

    /// No claims. The two keys name the places where a host keeps the claims
    /// and their index by release; the ledger itself does not use them.
    pub fn new(storage_key: &str, release_subkey: &str) -> (c: Claims)
        ensures
            c.wf(),
            c@ == Seq::<ClaimView>::empty(),
    {
        let c = Claims { claims: Vec::new() };
        assert(c@ =~= Seq::<ClaimView>::empty());
        c
    }

    /// A copy of the ledger.
    pub fn duplicate(&self) -> (c: Claims)
        ensures
            c@ == self@,
    {
        let mut out: Vec<Claim> = Vec::new();
        let mut i: usize = 0;
        while i < self.claims.len()
            invariant
                i <= self.claims@.len(),
                out@.len() == i,
                forall|j: int| 0 <= j < i ==> out@[j]@ == self.claims@[j]@,
            decreases self.claims@.len() - i,
        {
            out.push(self.claims[i].duplicate());
            i = i + 1;
        }
        let c = Claims { claims: out };
        assert(c@ =~= self@);
        c
    }
}

/// Some claim in `s` is of `addr` and released at `release`.
pub open spec fn has_claim(s: Seq<ClaimView>, addr: Seq<char>, release: u64) -> bool {
    exists|i: int| 0 <= i < s.len() && (#[trigger] s[i]).addr == addr && s[i].release_at == release
}

/// The position in `s` of the claim of `addr` released at `release`.
pub open spec fn claim_slot(s: Seq<ClaimView>, addr: Seq<char>, release: u64) -> int {
    choose|i: int| 0 <= i < s.len() && (#[trigger] s[i]).addr == addr && s[i].release_at == release
}

/// A claim of `addr` released at `release` can take the amounts in: the sums
/// with what such a claim holds already fit in 128 bits.
pub open spec fn create_fits(s: Seq<ClaimView>, addr: Seq<char>, release: u64, amount: u128, vesting: u128) -> bool {
    has_claim(s, addr, release) ==> {
        let c = s[claim_slot(s, addr, release)];
        c.amount + amount <= u128::MAX && vesting_of(c) + vesting <= u128::MAX
    }
}

/// `post` is `pre` with the claim `c` taken in: merged into the claim of its
/// address and release that `pre` holds, or else put in at its place.
pub open spec fn claim_added(pre: Seq<ClaimView>, post: Seq<ClaimView>, c: ClaimView) -> bool {
    if has_claim(pre, c.addr, c.release_at) {
        let p = claim_slot(pre, c.addr, c.release_at);
        post == pre.update(p, merged(pre[p], c.amount, vesting_of(c)))
    } else {
        exists|p: int| 0 <= p <= pre.len() && post == #[trigger] pre.insert(p, c)
    }
}

/// What `limit` stands for among `n` claims: all of them where there is none.
pub open spec fn limit_or_all(limit: Option<u64>, n: nat) -> int {
    match limit {
        Some(l) => l as int,
        None => n as int,
    }
}

/// The pick that an exec scan makes.
pub open spec fn pick_from(addr: Option<&String>, after: Option<u64>, until: Option<u64>) -> Pick {
    Pick {
        addr: match addr {
            Some(a) => Some(a@),
            None => None,
        },
        after,
        until,
    }
}

/// In ordered claims the claim at `i` is the one of its address and release.
pub proof fn lemma_claim_slot(s: Seq<ClaimView>, i: int)
    requires
        claims_ascend(s),
        0 <= i < s.len(),
    ensures
        has_claim(s, s[i].addr, s[i].release_at),
        claim_slot(s, s[i].addr, s[i].release_at) == i,
{
    let j = claim_slot(s, s[i].addr, s[i].release_at);
    lemma_addr_before_irreflexive(s[i].addr);
    if j < i {
        assert(claim_before(s[j], s[i]));
    }
    if i < j {
        assert(claim_before(s[i], s[j]));
    }
}

/// The sums of a list of claims.
fn sum_claims(list: &Vec<Claim>) -> (r: (u128, u128))
    requires
        liquid_sum(views(list@)) <= u128::MAX,
        vesting_sum(views(list@)) <= u128::MAX,
    ensures
        r.0 == liquid_sum(views(list@)),
        r.1 == vesting_sum(views(list@)),
{
    let ghost la = liquid_amounts(views(list@));
    let ghost va = vesting_amounts(views(list@));
    let mut liquid: u128 = 0;
    let mut vesting: u128 = 0;
    let mut i: usize = 0;
    proof {
        assert(la.take(0) =~= Seq::<int>::empty());
        assert(va.take(0) =~= Seq::<int>::empty());
    }
    while i < list.len()
        invariant
            i <= list@.len(),
            la == liquid_amounts(views(list@)),
            va == vesting_amounts(views(list@)),
            seq_sum(la) <= u128::MAX,
            seq_sum(va) <= u128::MAX,
            liquid == seq_sum(la.take(i as int)),
            vesting == seq_sum(va.take(i as int)),
        decreases list@.len() - i,
    {
        proof {
            assert(la.take(i + 1) =~= la.take(i as int).push(la[i as int]));
            assert(va.take(i + 1) =~= va.take(i as int).push(va[i as int]));
            lemma_sum_push(la.take(i as int), la[i as int]);
            lemma_sum_push(va.take(i as int), va[i as int]);
            lemma_sum_prefix(la, i + 1);
            lemma_sum_prefix(va, i + 1);
        }
        liquid = liquid + list[i].amount;
        vesting = vesting + list[i].vesting();
        i = i + 1;
    }
    proof {
        assert(la.take(la.len() as int) =~= la);
        assert(va.take(va.len() as int) =~= va);
    }
    (liquid, vesting)
}

/// The sums for every address in `released` fit in 128 bits.
pub open spec fn groups_fit(released: Seq<ClaimView>) -> bool {
    forall|a: Seq<char>, vesting: bool| seq_sum(#[trigger] amounts_for(released, a, vesting)) <= u128::MAX
}

/// The tokens, liquid or vesting, that the claims in `s` hold for `addr`.
pub open spec fn group_sum(s: Seq<ClaimView>, addr: Seq<char>, vesting: bool) -> int {
    seq_sum(amounts_for(s, addr, vesting))
}

/// One more claim adds its amount to the sum of its address and to no other.
proof fn lemma_group_step(rel: Seq<ClaimView>, i: int, a: Seq<char>, v: bool)
    requires
        0 <= i < rel.len(),
    ensures
        group_sum(rel.take(i + 1), a, v) == group_sum(rel.take(i), a, v) + amounts_for(rel, a, v)[i],
        0 <= group_sum(rel.take(i + 1), a, v) <= group_sum(rel, a, v),
        0 <= group_sum(rel.take(i), a, v),
{
    assert(amounts_for(rel.take(i + 1), a, v) =~= amounts_for(rel.take(i), a, v).push(amounts_for(rel, a, v)[i]));
    lemma_sum_push(amounts_for(rel.take(i), a, v), amounts_for(rel, a, v)[i]);
    assert(amounts_for(rel, a, v).take(i + 1) =~= amounts_for(rel.take(i + 1), a, v));
    assert(amounts_for(rel, a, v).take(i) =~= amounts_for(rel.take(i), a, v));
    lemma_sum_prefix(amounts_for(rel, a, v), i + 1);
    lemma_sum_prefix(amounts_for(rel, a, v), i);
}

/// `acc` holds the sums of the first `i` claims of `rel`, by address.
spec fn sums_so_far(acc: Map<Seq<char>, (u128, u128)>, rel: Seq<ClaimView>, i: int) -> bool {
    &&& forall|a: Seq<char>| #[trigger]
        acc.contains_key(a) <==> exists|k: int| 0 <= k < i && (#[trigger] rel[k]).addr == a
    &&& forall|a: Seq<char>| #[trigger]
        acc.contains_key(a) ==> acc[a].0 == group_sum(rel.take(i), a, false) && acc[a].1 == group_sum(
            rel.take(i),
            a,
            true,
        )
    &&& forall|a: Seq<char>, v: bool| !acc.contains_key(a) ==> #[trigger] group_sum(rel.take(i), a, v) == 0
}

/// Taking the claim at `i` into the sums of its address keeps the sums right.
proof fn lemma_sums_step(
    acc: Map<Seq<char>, (u128, u128)>,
    rel: Seq<ClaimView>,
    i: int,
    l: u128,
    v: u128,
)
    requires
        0 <= i < rel.len(),
        sums_so_far(acc, rel, i),
        l == group_sum(rel.take(i + 1), rel[i].addr, false),
        v == group_sum(rel.take(i + 1), rel[i].addr, true),
    ensures
        sums_so_far(acc.insert(rel[i].addr, (l, v)), rel, i + 1),
{
    let who = rel[i].addr;
    let acc2 = acc.insert(who, (l, v));
    assert forall|a: Seq<char>| #[trigger]
        acc2.contains_key(a) <==> exists|k: int| 0 <= k < i + 1 && (#[trigger] rel[k]).addr == a by {
        if a == who {
            assert(rel[i].addr == a);
        } else {
            if acc.contains_key(a) {
                let k = choose|k: int| 0 <= k < i && (#[trigger] rel[k]).addr == a;
                assert(0 <= k < i + 1 && rel[k].addr == a);
            }
            if exists|k: int| 0 <= k < i + 1 && (#[trigger] rel[k]).addr == a {
                let k = choose|k: int| 0 <= k < i + 1 && (#[trigger] rel[k]).addr == a;
                assert(0 <= k < i && rel[k].addr == a);
            }
        }
    }
    assert forall|a: Seq<char>| #[trigger] acc2.contains_key(a) implies acc2[a].0 == group_sum(
        rel.take(i + 1),
        a,
        false,
    ) && acc2[a].1 == group_sum(rel.take(i + 1), a, true) by {
        if a != who {
            assert(acc.contains_key(a));
            lemma_group_step(rel, i, a, false);
            lemma_group_step(rel, i, a, true);
        }
    }
    assert forall|a: Seq<char>, v: bool| !acc2.contains_key(a) implies #[trigger] group_sum(
        rel.take(i + 1),
        a,
        v,
    ) == 0 by {
        assert(!acc.contains_key(a));
        assert(group_sum(rel.take(i), a, v) == 0);
        lemma_group_step(rel, i, a, v);
    }
}

impl Claims {
    /// Gives `addr` a claim on `amount` liquid and `vesting_amount` vesting
    /// tokens, to be released at `release_at`. Where `addr` has a claim for
    /// that time already, the amounts are added to it.
    pub fn create_claim(
        &mut self,
        addr: String,
        amount: u128,
        vesting_amount: u128,
        release_at: Expiration,
        creation_height: u64,
    )
        requires
            old(self).wf(),
            create_fits(old(self)@, addr@, release_at.at.nanos, amount, vesting_amount),
        ensures
            final(self).wf(),
            claim_added(
                old(self)@,
                final(self)@,
                ClaimView {
                    addr: addr@,
                    amount,
                    vesting_amount: Some(vesting_amount),
                    release_at: release_at.at.nanos,
                    creation_height,
                },
            ),
            held_for(final(self)@, addr@) == held_for(old(self)@, addr@) + amount + vesting_amount,
            forall|b: Seq<char>| b != addr@ ==> #[trigger] held_for(final(self)@, b) == held_for(old(self)@, b),
    {
        let ghost s = self@;
        let release = release_at.at.nanos;
        let mut i: usize = 0;
        let mut found = false;
        while i < self.claims.len()
            invariant_except_break
                !found,
            invariant
                s == self@,
                claims_ascend(s),
                i <= self.claims@.len(),
                forall|j: int|
                    0 <= j < i ==> (#[trigger] s[j]).release_at < release || (s[j].release_at == release
                        && addr_before(s[j].addr, addr@)),
            ensures
                found ==> i < self.claims@.len() && s[i as int].addr == addr@ && s[i as int].release_at == release,
                !found && i < self.claims@.len() ==> (release < s[i as int].release_at || (s[i as int].release_at
                    == release && addr_before(addr@, s[i as int].addr))),
            decreases self.claims@.len() - i,
        {
            match claim_side(&self.claims[i], &addr, release) {
                Side::Before => {},
                Side::Same => {
                    found = true;
                    break ;
                },
                Side::After => {
                    break ;
                },
            }
            i = i + 1;
        }
        let ghost fresh = ClaimView {
            addr: addr@,
            amount,
            vesting_amount: Some(vesting_amount),
            release_at: release,
            creation_height,
        };
        if found {
            proof {
                lemma_claim_slot(s, i as int);
            }
            let c = &self.claims[i];
            let next = Claim {
                addr: c.addr.clone(),
                amount: c.amount + amount,
                vesting_amount: Some(c.vesting() + vesting_amount),
                release_at: c.release_at,
                creation_height: c.creation_height,
            };
            self.claims[i] = next;
            proof {
                let m = merged(s[i as int], amount, vesting_amount);
                assert(self@ =~= s.update(i as int, m));
                assert forall|x: int, y: int| 0 <= x < y < self@.len() implies claim_before(
                    #[trigger] self@[x],
                    #[trigger] self@[y],
                ) by {
                    assert(claim_before(s[x], s[y]));
                }
                assert forall|b: Seq<char>, v: bool|
                    amounts_for(self@, b, v) =~= amounts_for(s, b, v).update(
                        i as int,
                        amounts_for(self@, b, v)[i as int],
                    ) by {}
                assert forall|b: Seq<char>, v: bool|
                    seq_sum(amounts_for(self@, b, v)) == seq_sum(amounts_for(s, b, v)) - amounts_for(s, b, v)[i as int]
                        + amounts_for(self@, b, v)[i as int] by {
                    assert(amounts_for(self@, b, v) =~= amounts_for(s, b, v).update(
                        i as int,
                        amounts_for(self@, b, v)[i as int],
                    ));
                    crate::keyed::lemma_sum_update(amounts_for(s, b, v), i as int, amounts_for(self@, b, v)[i as int]);
                }
            }
        } else {
            proof {
                lemma_addr_before_irreflexive(addr@);
                assert(!has_claim(s, addr@, release)) by {
                    if has_claim(s, addr@, release) {
                        let j = claim_slot(s, addr@, release);
                        if j >= i {
                            if j > i {
                                assert(claim_before(s[i as int], s[j]));
                                if s[i as int].release_at == release {
                                    lemma_addr_before_asymmetric(addr@, s[i as int].addr);
                                }
                            }
                        }
                    }
                }
            }
            let c = Claim::new(addr, amount, vesting_amount, release_at, creation_height);
            self.claims.insert(i, c);
            proof {
                assert(self@ =~= s.insert(i as int, fresh));
                assert forall|x: int, y: int| 0 <= x < y < self@.len() implies claim_before(
                    #[trigger] self@[x],
                    #[trigger] self@[y],
                ) by {
                    let x0 = if x < i { x } else { x - 1 };
                    let y0 = if y < i { y } else { y - 1 };
                    if x == i as int {
                        assert(self@[y] == s[y0]);
                        if y0 > i {
                            assert(claim_before(s[i as int], s[y0]));
                            if s[i as int].release_at == release && s[y0].release_at == release {
                                lemma_addr_before_transitive(addr@, s[i as int].addr, s[y0].addr);
                            }
                        }
                    } else if y == i as int {
                        assert(self@[x] == s[x0]);
                    } else {
                        assert(self@[x] == s[x0] && self@[y] == s[y0]);
                        assert(claim_before(s[x0], s[y0]));
                    }
                }
                assert forall|b: Seq<char>, v: bool|
                    seq_sum(amounts_for(self@, b, v)) == seq_sum(amounts_for(s, b, v)) + amounts_for(self@, b, v)[i as int]
                by {
                    assert(amounts_for(self@, b, v) =~= amounts_for(s, b, v).insert(
                        i as int,
                        amounts_for(self@, b, v)[i as int],
                    ));
                    crate::keyed::lemma_sum_insert(amounts_for(s, b, v), i as int, amounts_for(self@, b, v)[i as int]);
                }
            }
        }
        proof {
            assert(seq_sum(amounts_for(self@, addr@, false)) == seq_sum(amounts_for(s, addr@, false)) + amount);
            assert(seq_sum(amounts_for(self@, addr@, true)) == seq_sum(amounts_for(s, addr@, true))
                + vesting_amount);
            assert forall|b: Seq<char>| b != addr@ implies #[trigger] held_for(self@, b) == held_for(s, b) by {
                assert(seq_sum(amounts_for(self@, b, false)) == seq_sum(amounts_for(s, b, false)));
                assert(seq_sum(amounts_for(self@, b, true)) == seq_sum(amounts_for(s, b, true)));
            }
        }
    }

    /// Parts the claims into the first `limit` that the pick takes and the rest.
    fn collect_claims(&self, addr: Option<&String>, after: Option<u64>, until: Option<u64>, limit: Option<u64>) -> (r: (
        Vec<Claim>,
        Vec<Claim>,
    ))
        requires
            self.wf(),
        ensures
            views(r.0@) == taken(
                self@,
                pick_from(addr, after, until),
                limit_or_all(limit, self@.len()),
            ),
            views(r.1@) == kept(self@, pick_from(addr, after, until), limit_or_all(limit, self@.len())),
            claims_ascend(views(r.1@)),
    {
        let ghost s = self@;
        let ghost p = pick_from(addr, after, until);
        let ghost all = limit_or_all(limit, s.len());
        let n = self.claims.len();
        let mut out: Vec<Claim> = Vec::new();
        let mut rest: Vec<Claim> = Vec::new();
        let mut i: usize = 0;
        proof {
            assert(s.skip(0) =~= s);
            assert(views(out@) + taken(s, p, all) =~= taken(s, p, all));
            assert(views(rest@) + kept(s, p, all) =~= kept(s, p, all));
            assert(views(rest@) + s.skip(0) =~= s);
        }
        while i < n
            invariant
                i <= n,
                n == self.claims@.len(),
                s == self@,
                p == pick_from(addr, after, until),
                all == limit_or_all(limit, s.len()),
                out@.len() + rest@.len() == i,
                out@.len() <= all,
                taken(s, p, all) == views(out@) + taken(s.skip(i as int), p, all - out@.len()),
                kept(s, p, all) == views(rest@) + kept(s.skip(i as int), p, all - out@.len()),
                claims_ascend(views(rest@) + s.skip(i as int)),
            decreases n - i,
        {
            let c = &self.claims[i];
            let ghost tail = s.skip(i as int);
            let ghost left = all - out@.len();
            proof {
                assert(tail[0] == c@);
                assert(tail.drop_first() =~= s.skip(i + 1));
            }
            let room = match limit {
                Some(l) => (out.len() as u64) < l,
                None => true,
            };
            let right_addr = match addr {
                Some(a) => c.addr == *a,
                None => true,
            };
            let right_after = match after {
                Some(a) => c.release_at.at.nanos > a,
                None => true,
            };
            let right_until = match until {
                Some(u) => c.release_at.at.nanos <= u,
                None => true,
            };
            if room && right_addr && right_after && right_until {
                let ghost before = views(rest@) + tail;
                let d = c.duplicate();
                proof {
                    crate::types::lemma_views_push(out@, d);
                    assert(views(out@).push(d@) + taken(s.skip(i + 1), p, left - 1) =~= views(out@) + (seq![
                        tail[0],
                    ] + taken(tail.drop_first(), p, left - 1)));
                    let after_seq = views(rest@) + s.skip(i + 1);
                    assert forall|x: int, y: int| 0 <= x < y < after_seq.len() implies claim_before(
                        #[trigger] after_seq[x],
                        #[trigger] after_seq[y],
                    ) by {
                        let x0 = if x < rest@.len() { x } else { x + 1 };
                        let y0 = if y < rest@.len() { y } else { y + 1 };
                        assert(after_seq[x] == before[x0] && after_seq[y] == before[y0]);
                    }
                }
                out.push(d);
            } else {
                let d = c.duplicate();
                proof {
                    crate::types::lemma_views_push(rest@, d);
                    assert(!(left > 0 && picks(p, tail[0])));
                    assert(views(rest@).push(d@) + kept(s.skip(i + 1), p, left) =~= views(rest@) + (seq![tail[0]]
                        + kept(tail.drop_first(), p, left)));
                    assert(views(rest@).push(d@) + s.skip(i + 1) =~= views(rest@) + tail);
                }
                rest.push(d);
            }
            i = i + 1;
        }
        proof {
            assert(s.skip(n as int) =~= Seq::<ClaimView>::empty());
            assert(views(out@) + Seq::<ClaimView>::empty() =~= views(out@));
            assert(views(rest@) + Seq::<ClaimView>::empty() =~= views(rest@));
        }
        (out, rest)
    }
}

/// The claims of `addr` that are mature at the time `now`.
pub open spec fn mature_of(addr: Seq<char>, now: u64) -> Pick {
    Pick { addr: Some(addr), after: None, until: Some(now) }
}

/// The claims of any address that are mature at the time `now`.
pub open spec fn mature(now: u64) -> Pick {
    Pick { addr: None, after: None, until: Some(now) }
}

/// The claims of `addr` that are released after `start`.
pub open spec fn listed_of(addr: Seq<char>, start: Option<Expiration>) -> Pick {
    Pick {
        addr: Some(addr),
        after: match start {
            Some(e) => Some(e.at.nanos),
            None => None,
        },
        until: None,
    }
}

/// The largest number of claims that one listing holds.
pub const MAX_LIMIT: u32 = 100;

/// The number of claims that a listing holds where none is asked for.
pub const DEFAULT_LIMIT: u32 = 30;

/// The number of claims that a listing holds for the limit asked for.
pub open spec fn page_size(limit: Option<u32>) -> int {
    match limit {
        Some(l) => if l < MAX_LIMIT {
            l as int
        } else {
            MAX_LIMIT as int
        },
        None => DEFAULT_LIMIT as int,
    }
}

/// What a slash takes from the claims of `addr` in `s` fits in 128 bits.
pub open spec fn slash_fits(s: Seq<ClaimView>, addr: Seq<char>, portion: Decimal) -> bool {
    &&& seq_sum(slash_amounts(s, addr, portion, false)) <= u128::MAX
    &&& seq_sum(slash_amounts(s, addr, portion, true)) <= u128::MAX
}

impl Claims {
    /// Releases the mature claims of `addr`, oldest first and at most `limit`
    /// of them, and returns the liquid and the vesting tokens that they held.
    pub fn claim_addr(&mut self, addr: &String, block: &BlockInfo, limit: Option<u64>) -> (r: (u128, u128))
        requires
            old(self).wf(),
            liquid_sum(taken(old(self)@, mature_of(addr@, block.time.nanos), limit_or_all(limit, old(self)@.len())))
                <= u128::MAX,
            vesting_sum(taken(old(self)@, mature_of(addr@, block.time.nanos), limit_or_all(limit, old(self)@.len())))
                <= u128::MAX,
        ensures
            final(self).wf(),
            final(self)@ == kept(old(self)@, mature_of(addr@, block.time.nanos), limit_or_all(limit, old(self)@.len())),
            r.0 == liquid_sum(
                taken(old(self)@, mature_of(addr@, block.time.nanos), limit_or_all(limit, old(self)@.len())),
            ),
            r.1 == vesting_sum(
                taken(old(self)@, mature_of(addr@, block.time.nanos), limit_or_all(limit, old(self)@.len())),
            ),
    {
        let now = Expiration::now(block).as_key();
        let (released, rest) = self.collect_claims(Some(addr), None, Some(now), limit);
        let sums = sum_claims(&released);
        self.claims = rest;
        sums
    }

    /// Releases the mature claims of all addresses, oldest first and at most
    /// `limit` of them, and returns for each address the liquid and the
    /// vesting tokens that its released claims held.
    pub fn claim_expired(&mut self, block: &BlockInfo, limit: Option<u64>) -> (r: ReleaseData)
        requires
            old(self).wf(),
            groups_fit(taken(old(self)@, mature(block.time.nanos), limit_or_all(limit, old(self)@.len()))),
        ensures
            final(self).wf(),
            final(self)@ == kept(old(self)@, mature(block.time.nanos), limit_or_all(limit, old(self)@.len())),
            groups(
                taken(old(self)@, mature(block.time.nanos), limit_or_all(limit, old(self)@.len())),
                false,
                views(r.liquid_releases@),
            ),
            groups(
                taken(old(self)@, mature(block.time.nanos), limit_or_all(limit, old(self)@.len())),
                true,
                views(r.vesting_releases@),
            ),
    {
        let (released, rest) = self.collect_claims(None, None, Some(block.time.nanos()), limit);
        let data = crate::stake::grouping::group_releases(&released);
        self.claims = rest;
        data
    }

    /// Takes the portion `portion` from the liquid and from the vesting
    /// tokens of every claim of `address`, each rounded down, and returns what
    /// was taken of either kind.
    pub fn slash_claims_for_addr(&mut self, address: String, portion: Decimal) -> (r: (u128, u128))
        requires
            old(self).wf(),
            portion.atomics <= DECIMAL_FRACTIONAL,
            slash_fits(old(self)@, address@, portion),
        ensures
            final(self).wf(),
            final(self)@ == slashed_claims(old(self)@, address@, portion),
            r.0 == seq_sum(slash_amounts(old(self)@, address@, portion, false)),
            r.1 == seq_sum(slash_amounts(old(self)@, address@, portion, true)),
    {
        let ghost s = self@;
        let ghost la = slash_amounts(s, address@, portion, false);
        let ghost va = slash_amounts(s, address@, portion, true);
        let n = self.claims.len();
        let mut total_slashed: u128 = 0;
        let mut total_vesting_slashed: u128 = 0;
        let mut i: usize = 0;
        proof {
            assert(la.take(0) =~= Seq::<int>::empty());
            assert(va.take(0) =~= Seq::<int>::empty());
            assert forall|j: int| 0 <= j < s.len() implies la[j] >= 0 && va[j] >= 0 by {
                lemma_portion_bounds(s[j].amount, portion);
                lemma_portion_bounds(vesting_of(s[j]), portion);
            }
        }
        while i < n
            invariant
                i <= n,
                n == s.len(),
                self@.len() == n,
                portion.atomics <= DECIMAL_FRACTIONAL,
                la == slash_amounts(s, address@, portion, false),
                va == slash_amounts(s, address@, portion, true),
                forall|j: int| 0 <= j < s.len() ==> la[j] >= 0 && va[j] >= 0,
                seq_sum(la) <= u128::MAX,
                seq_sum(va) <= u128::MAX,
                total_slashed == seq_sum(la.take(i as int)),
                total_vesting_slashed == seq_sum(va.take(i as int)),
                forall|j: int| 0 <= j < i ==> self@[j] == slashed_claims(s, address@, portion)[j],
                forall|j: int| i <= j < n ==> self@[j] == s[j],
            decreases n - i,
        {
            proof {
                assert(la.take(i + 1) =~= la.take(i as int).push(la[i as int]));
                assert(va.take(i + 1) =~= va.take(i as int).push(va[i as int]));
                lemma_sum_push(la.take(i as int), la[i as int]);
                lemma_sum_push(va.take(i as int), va[i as int]);
                lemma_sum_prefix(la, i + 1);
                lemma_sum_prefix(va, i + 1);
                assert(self@[i as int] == s[i as int]);
            }
            if self.claims[i].addr == address {
                let c = &self.claims[i];
                let slashed = share_of(c.amount, portion);
                let vesting_slashed = share_of(c.vesting(), portion);
                let next = Claim {
                    addr: c.addr.clone(),
                    amount: c.amount - slashed,
                    vesting_amount: Some(c.vesting() - vesting_slashed),
                    release_at: c.release_at,
                    creation_height: c.creation_height,
                };
                let ghost before = self@;
                self.claims[i] = next;
                proof {
                    assert(self@ =~= before.update(i as int, slashed_claim(s[i as int], portion)));
                }
                total_slashed = total_slashed + slashed;
                total_vesting_slashed = total_vesting_slashed + vesting_slashed;
            }
            i = i + 1;
        }
        proof {
            assert(la.take(la.len() as int) =~= la);
            assert(va.take(va.len() as int) =~= va);
            assert(self@ =~= slashed_claims(s, address@, portion));
            assert forall|x: int, y: int| 0 <= x < y < self@.len() implies claim_before(
                #[trigger] self@[x],
                #[trigger] self@[y],
            ) by {
                assert(claim_before(s[x], s[y]));
            }
        }
        (total_slashed, total_vesting_slashed)
    }

    /// The claims of `address` in the order of their release, from the one
    /// released after `start_after` on, as many as the limit allows.
    pub fn query_claims(&self, address: String, limit: Option<u32>, start_after: Option<Expiration>) -> (r: Vec<
        Claim,
    >)
        requires
            self.wf(),
        ensures
            views(r@) == taken(self@, listed_of(address@, start_after), page_size(limit)),
    {
        let n: u64 = match limit {
            Some(l) => if l < MAX_LIMIT {
                l as u64
            } else {
                MAX_LIMIT as u64
            },
            None => DEFAULT_LIMIT as u64,
        };
        let after = match start_after {
            Some(e) => Some(e.as_key()),
            None => None,
        };
        let (found, _) = self.collect_claims(Some(&address), after, None, Some(n));
        found
    }
}

/// The sums of a list of claims, where they fit in 128 bits.
fn sum_claims_checked(list: &Vec<Claim>) -> (r: Option<(u128, u128)>)
    ensures
        match r {
            Some(s) => s.0 == liquid_sum(views(list@)) && s.1 == vesting_sum(views(list@)),
            None => liquid_sum(views(list@)) > u128::MAX || vesting_sum(views(list@)) > u128::MAX,
        },
{
    let ghost la = liquid_amounts(views(list@));
    let ghost va = vesting_amounts(views(list@));
    let mut liquid: u128 = 0;
    let mut vesting: u128 = 0;
    let mut i: usize = 0;
    proof {
        assert(la.take(0) =~= Seq::<int>::empty());
        assert(va.take(0) =~= Seq::<int>::empty());
    }
    while i < list.len()
        invariant
            i <= list@.len(),
            la == liquid_amounts(views(list@)),
            va == vesting_amounts(views(list@)),
            liquid == seq_sum(la.take(i as int)),
            vesting == seq_sum(va.take(i as int)),
        decreases list@.len() - i,
    {
        proof {
            assert(la.take(i + 1) =~= la.take(i as int).push(la[i as int]));
            assert(va.take(i + 1) =~= va.take(i as int).push(va[i as int]));
            lemma_sum_push(la.take(i as int), la[i as int]);
            lemma_sum_push(va.take(i as int), va[i as int]);
            lemma_sum_prefix(la, i + 1);
            lemma_sum_prefix(va, i + 1);
        }
        liquid = match liquid.checked_add(list[i].amount) {
            Some(x) => x,
            None => {
                return None;
            },
        };
        vesting = match vesting.checked_add(list[i].vesting()) {
            Some(x) => x,
            None => {
                return None;
            },
        };
        i = i + 1;
    }
    proof {
        assert(la.take(la.len() as int) =~= la);
        assert(va.take(va.len() as int) =~= va);
    }
    Some((liquid, vesting))
}

/// Whether the sums for every address in `released` fit in 128 bits.
fn groups_fit_now(released: &Vec<Claim>) -> (r: bool)
    ensures
        r == groups_fit(views(released@)),
{
    let ghost rel = views(released@);
    let mut acc: AddrMap<(u128, u128)> = AddrMap::new();
    let mut i: usize = 0;
    proof {
        assert forall|a: Seq<char>, v: bool| amounts_for(rel.take(0), a, v) =~= Seq::<int>::empty() by {}
    }
    while i < released.len()
        invariant
            i <= released@.len(),
            rel == views(released@),
            acc.wf(),
            sums_so_far(acc@, rel, i as int),
        decreases released@.len() - i,
    {
        let c = &released[i];
        let ghost who = c.addr@;
        proof {
            assert(rel[i as int] == c@);
            lemma_group_step(rel, i as int, who, false);
            lemma_group_step(rel, i as int, who, true);
        }
        let (l, v): (u128, u128) = match acc.get(&c.addr) {
            Some(x) => *x,
            None => (0, 0),
        };
        proof {
            assert(l == group_sum(rel.take(i as int), who, false));
            assert(v == group_sum(rel.take(i as int), who, true));
        }
        let l2 = match l.checked_add(c.amount) {
            Some(x) => x,
            None => {
                assert(seq_sum(amounts_for(rel, who, false)) > u128::MAX);
                return false;
            },
        };
        let v2 = match v.checked_add(c.vesting()) {
            Some(x) => x,
            None => {
                assert(seq_sum(amounts_for(rel, who, true)) > u128::MAX);
                return false;
            },
        };
        proof {
            lemma_sums_step(acc@, rel, i as int, l2, v2);
        }
        acc.insert(c.addr.clone(), (l2, v2));
        i = i + 1;
    }
    proof {
        assert(rel.take(rel.len() as int) =~= rel);
        assert forall|a: Seq<char>, v: bool| seq_sum(#[trigger] amounts_for(rel, a, v)) <= u128::MAX by {
            let n = rel.len() as int;
            if acc@.contains_key(a) {
                assert(acc@[a].0 == group_sum(rel.take(n), a, false));
                assert(acc@[a].1 == group_sum(rel.take(n), a, true));
            } else {
                assert(group_sum(rel.take(n), a, v) == 0);
            }
            assert(group_sum(rel, a, v) == seq_sum(amounts_for(rel, a, v)));
        }
        assert(groups_fit(rel));
    }
    true
}

impl Claims {
    /// Whether a claim of `addr` released at `release` can take the amounts in.
    pub fn create_fits_now(&self, addr: &String, release: u64, amount: u128, vesting: u128) -> (r: bool)
        requires
            self.wf(),
        ensures
            r == create_fits(self@, addr@, release, amount, vesting),
    {
        let mut i: usize = 0;
        while i < self.claims.len()
            invariant
                self.wf(),
                i <= self.claims@.len(),
                forall|j: int| 0 <= j < i ==> !((#[trigger] self@[j]).addr == addr@ && self@[j].release_at == release),
            decreases self.claims@.len() - i,
        {
            let c = &self.claims[i];
            if c.release_at.at.nanos == release && c.addr == *addr {
                proof {
                    assert(self@[i as int] == c@);
                    lemma_claim_slot(self@, i as int);
                }
                return c.amount.checked_add(amount).is_some() && c.vesting().checked_add(vesting).is_some();
            }
            i = i + 1;
        }
        true
    }

    /// Whether the sums of the claims that `claim_addr` would release fit in 128 bits.
    pub fn claim_addr_fits(&self, addr: &String, block: &BlockInfo, limit: Option<u64>) -> (r: bool)
        requires
            self.wf(),
        ensures
            r == (liquid_sum(taken(self@, mature_of(addr@, block.time.nanos), limit_or_all(limit, self@.len())))
                <= u128::MAX && vesting_sum(
                taken(self@, mature_of(addr@, block.time.nanos), limit_or_all(limit, self@.len())),
            ) <= u128::MAX),
    {
        let (released, _) = self.collect_claims(Some(addr), None, Some(block.time.nanos()), limit);
        sum_claims_checked(&released).is_some()
    }

    /// Whether the sums of the claims that `claim_expired` would release fit in 128 bits, for every address.
    pub fn claim_expired_fits(&self, block: &BlockInfo, limit: Option<u64>) -> (r: bool)
        requires
            self.wf(),
        ensures
            r == groups_fit(taken(self@, mature(block.time.nanos), limit_or_all(limit, self@.len()))),
    {
        let (released, _) = self.collect_claims(None, None, Some(block.time.nanos()), limit);
        groups_fit_now(&released)
    }

    /// What a slash by `portion` would take from the claims of `address`, where the sums fit in 128 bits.
    pub fn slash_sums(&self, address: &String, portion: Decimal) -> (r: Option<(u128, u128)>)
        requires
            self.wf(),
            portion.atomics <= DECIMAL_FRACTIONAL,
        ensures
            match r {
                Some(s) => slash_fits(self@, address@, portion) && s.0 == seq_sum(
                    slash_amounts(self@, address@, portion, false),
                ) && s.1 == seq_sum(slash_amounts(self@, address@, portion, true)),
                None => !slash_fits(self@, address@, portion),
            },
    {
        let ghost s = self@;
        let ghost la = slash_amounts(s, address@, portion, false);
        let ghost va = slash_amounts(s, address@, portion, true);
        let mut liquid: u128 = 0;
        let mut vesting: u128 = 0;
        let mut i: usize = 0;
        proof {
            assert(la.take(0) =~= Seq::<int>::empty());
            assert(va.take(0) =~= Seq::<int>::empty());
            assert forall|j: int| 0 <= j < s.len() implies la[j] >= 0 && va[j] >= 0 by {
                lemma_portion_bounds(s[j].amount, portion);
                lemma_portion_bounds(vesting_of(s[j]), portion);
            }
        }
        while i < self.claims.len()
            invariant
                i <= self.claims@.len(),
                s == self@,
                portion.atomics <= DECIMAL_FRACTIONAL,
                la == slash_amounts(s, address@, portion, false),
                va == slash_amounts(s, address@, portion, true),
                forall|j: int| 0 <= j < s.len() ==> la[j] >= 0 && va[j] >= 0,
                liquid == seq_sum(la.take(i as int)),
                vesting == seq_sum(va.take(i as int)),
            decreases self.claims@.len() - i,
        {
            proof {
                assert(la.take(i + 1) =~= la.take(i as int).push(la[i as int]));
                assert(va.take(i + 1) =~= va.take(i as int).push(va[i as int]));
                lemma_sum_push(la.take(i as int), la[i as int]);
                lemma_sum_push(va.take(i as int), va[i as int]);
                lemma_sum_prefix(la, i + 1);
                lemma_sum_prefix(va, i + 1);
                assert(s[i as int] == self.claims@[i as int]@);
            }
            let c = &self.claims[i];
            if c.addr == *address {
                liquid = match liquid.checked_add(share_of(c.amount, portion)) {
                    Some(x) => x,
                    None => {
                        return None;
                    },
                };
                vesting = match vesting.checked_add(share_of(c.vesting(), portion)) {
                    Some(x) => x,
                    None => {
                        return None;
                    },
                };
            }
            i = i + 1;
        }
        proof {
            assert(la.take(la.len() as int) =~= la);
            assert(va.take(va.len() as int) =~= va);
        }
        Some((liquid, vesting))
    }
}

} // verus!
