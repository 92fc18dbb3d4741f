//! What the engagement engine keeps, and the arithmetic of the shares.

use crate::controllers::{Admin, Hooks, Preauth, Slashers};
use crate::keyed::AddrMap;
use crate::members::{lookup, members_set, points_or_zero, Members, MembersView};
use crate::time::{Duration, Expiration};
use crate::types::{DiffView, MemberView, Timestamp};
use vstd::prelude::*;

verus! {

/// The number of bits by which amounts are shifted to the left before they
/// are divided among the points, so that the quotient keeps 32 binary places.
pub const SHARES_SHIFT: u32 = 32;

/// Two to the power of `SHARES_SHIFT`: the shares in one token.
pub const SHARES_UNIT: u128 = 0x1_0000_0000;

/// The largest amount that can be shifted to the left by `SHARES_SHIFT` bits in 128 bits.
pub const MAX_SHIFTABLE: u128 = 0xffff_ffff_ffff_ffff_ffff_ffff;

/// The state of the reward pool.
#[derive(Clone, Debug, PartialEq, Eq)]
pub struct Distribution {
    /// The denom of the rewards.
    pub denom: String,
    /// The shares that each point has earned since the beginning.
    pub shares_per_point: u128,
    /// The shares that the last distribution could not divide among the points.
    pub shares_leftover: u64,
    /// All tokens ever distributed.
    pub distributed_total: u128,
    /// The tokens distributed and not yet withdrawn.
    pub withdrawable_total: u128,
}

/// What is on record for one address beside its points.
#[derive(Clone, Debug, PartialEq, Eq)]
pub struct WithdrawAdjustment {
    /// What to add to `shares_per_point * points` to get the shares that the address has earned.
    pub shares_correction: i128,
    /// The tokens that the address has withdrawn so far.
    pub withdrawn_rewards: u128,
    /// The address that may withdraw in its place.
    pub delegated: String,
}

pub struct AdjustmentView {
    pub shares_correction: int,
    pub withdrawn_rewards: u128,
    pub delegated: Seq<char>,
}

impl View for WithdrawAdjustment {
    type V = AdjustmentView;

    open spec fn view(&self) -> AdjustmentView {
        AdjustmentView {
            shares_correction: self.shares_correction as int,
            withdrawn_rewards: self.withdrawn_rewards,
            delegated: self.delegated@,
        }
    }
}

impl WithdrawAdjustment {
    /// A copy of the adjustment.
    pub fn duplicate(&self) -> (r: WithdrawAdjustment)
        ensures
            r@ == self@,
            r.shares_correction == self.shares_correction,
    {
        WithdrawAdjustment {
            shares_correction: self.shares_correction,
            withdrawn_rewards: self.withdrawn_rewards,
            delegated: self.delegated.clone(),
        }
    }
}

impl Distribution {
    /// A copy of the distribution.
    pub fn duplicate(&self) -> (r: Distribution)
        ensures
            r == *self,
    {
        Distribution {
            denom: self.denom.clone(),
            shares_per_point: self.shares_per_point,
            shares_leftover: self.shares_leftover,
            distributed_total: self.distributed_total,
            withdrawable_total: self.withdrawable_total,
        }
    }
}

/// When the points were last halved, and how often they are.
#[derive(Clone, Copy, Debug, PartialEq, Eq)]
pub struct Halflife {
    pub halflife: Option<Duration>,
    pub last_applied: Timestamp,
}

impl Halflife {
    /// The next halving lies within the range of a timestamp.
    pub open spec fn in_range(&self) -> bool {
        match self.halflife {
            Some(d) => d.fits_after(self.last_applied),
            None => true,
        }
    }

    /// The halving is due at the time `t`: a duration is set, and `t` is not
    /// before the last halving plus the duration.
    pub open spec fn due(&self, t: Timestamp) -> bool {
        match self.halflife {
            Some(d) => t.nanos >= self.last_applied.nanos + d.secs * crate::types::NANOS_PER_SECOND,
            None => false,
        }
    }

    /// Whether the halving is due at the time `t`.
    pub fn should_apply(&self, t: Timestamp) -> (r: bool)
        requires
            self.in_range(),
        ensures
            r == self.due(t),
    {
        match self.halflife {
            Some(d) => {
                let next: Expiration = d.after_time(self.last_applied);
                next.is_expired(&crate::types::BlockInfo { height: 0, time: t })
            },
            None => false,
        }
    }
}

/// The shares that an address with `points` points and the correction
/// `correction` has earned at `spp` shares per point.
pub open spec fn entitlement(spp: u128, points: int, correction: int) -> int {
    spp * points + correction
}

/// The tokens that those shares are worth, rounded down.
pub open spec fn earned(spp: u128, points: int, adj: AdjustmentView) -> int {
    entitlement(spp, points, adj.shares_correction) / (SHARES_UNIT as int)
}

/// The tokens that the address can withdraw now.
pub open spec fn withdrawable_of(spp: u128, points: int, adj: AdjustmentView) -> int {
    earned(spp, points, adj) - adj.withdrawn_rewards
}

/// The address has not withdrawn more than it has earned.
pub open spec fn account_solvent(spp: u128, points: int, adj: AdjustmentView) -> bool {
    adj.withdrawn_rewards * SHARES_UNIT <= entitlement(spp, points, adj.shares_correction)
}

/// The shares of the address can be computed in 128 bits with a sign.
pub open spec fn account_fits(spp: u128, points: int, adj: AdjustmentView) -> bool {
    &&& spp * points <= i128::MAX
    &&& entitlement(spp, points, adj.shares_correction) <= i128::MAX
}

/// An address that has withdrawn no more than it earned can withdraw a
/// non-negative amount, and what it can withdraw and what it has withdrawn
/// make up what it has earned.
pub proof fn lemma_withdrawable(spp: u128, points: int, adj: AdjustmentView)
    requires
        account_solvent(spp, points, adj),
    ensures
        withdrawable_of(spp, points, adj) >= 0,
        withdrawable_of(spp, points, adj) + adj.withdrawn_rewards == entitlement(
            spp,
            points,
            adj.shares_correction,
        ) / (SHARES_UNIT as int),
        earned(spp, points, adj) * SHARES_UNIT <= entitlement(spp, points, adj.shares_correction),
{
    let x = entitlement(spp, points, adj.shares_correction);
    let w = adj.withdrawn_rewards as int;
    let u = SHARES_UNIT as int;
    assert(x / u >= w && (x / u) * u <= x) by (nonlinear_arith)
        requires
            w * u <= x,
            u > 0,
    ;
}

/// The adjustment of an address that has none on record.
pub open spec fn fresh_adjustment(addr: Seq<char>) -> AdjustmentView {
    AdjustmentView { shares_correction: 0, withdrawn_rewards: 0, delegated: addr }
}

/// The adjustments on record, by address.
pub type Adjustments = Map<Seq<char>, AdjustmentView>;

/// The adjustment of `addr`: what is on record, or a fresh one.
pub open spec fn adjustment_of(adjust: Adjustments, addr: Seq<char>) -> AdjustmentView {
    if adjust.contains_key(addr) {
        adjust[addr]
    } else {
        fresh_adjustment(addr)
    }
}

/// The adjustments after the points of `addr` changed by `delta` at `spp`
/// shares per point: its correction takes up `spp * delta`, so that what it
/// has earned stays what it was.
pub open spec fn corrected(adjust: Adjustments, addr: Seq<char>, spp: u128, delta: int) -> Adjustments {
    let base = adjustment_of(adjust, addr);
    adjust.insert(
        addr,
        AdjustmentView { shares_correction: base.shares_correction - spp * delta, ..base },
    )
}

/// The correction for a change by `delta` can be computed in 128 bits with a sign.
pub open spec fn correction_fits(adjust: Adjustments, addr: Seq<char>, spp: u128, delta: int) -> bool {
    &&& spp <= i128::MAX
    &&& i128::MIN <= spp * delta <= i128::MAX
    &&& i128::MIN <= adjustment_of(adjust, addr).shares_correction - spp * delta <= i128::MAX
}

/// The adjustments after `addr` named `delegated` to withdraw in its place.
pub open spec fn delegated_to(adjust: Adjustments, addr: Seq<char>, delegated: Seq<char>) -> Adjustments {
    let base = adjustment_of(adjust, addr);
    adjust.insert(addr, AdjustmentView { delegated, ..base })
}

/// The members, the adjustments, and the changes made so far in one update.
pub struct Ledger {
    pub members: MembersView,
    pub adjust: Adjustments,
    pub diffs: Seq<DiffView>,
}

/// The ledger after the points of `addr` were set to `new` (or the member
/// taken out, for `None`) at `height` and at `spp` shares per point.
pub open spec fn ledger_set(l: Ledger, addr: Seq<char>, new: Option<u64>, spp: u128, height: u64) -> Ledger {
    let old = lookup(l.members.points, addr);
    Ledger {
        members: members_set(l.members, addr, new, height),
        adjust: corrected(l.adjust, addr, spp, points_or_zero(new) - points_or_zero(old)),
        diffs: l.diffs.push(DiffView { key: addr, old, new }),
    }
}

/// That step can be computed: the total stays within 64 bits and the correction within 128.
pub open spec fn ledger_set_fits(l: Ledger, addr: Seq<char>, new: Option<u64>, spp: u128, height: u64) -> bool {
    let old = lookup(l.members.points, addr);
    &&& members_set(l.members, addr, new, height).total <= u64::MAX
    &&& correction_fits(l.adjust, addr, spp, points_or_zero(new) - points_or_zero(old))
}

/// The ledger after `m` was added or its points replaced.
pub open spec fn ledger_add(l: Ledger, m: MemberView, spp: u128, height: u64) -> Ledger {
    ledger_set(l, m.addr, Some(m.points), spp, height)
}

/// The ledger after `addr` was removed; nothing changes where it is no member.
pub open spec fn ledger_remove(l: Ledger, addr: Seq<char>, spp: u128, height: u64) -> Ledger {
    if l.members.points.contains_key(addr) {
        ledger_set(l, addr, None, spp, height)
    } else {
        l
    }
}

/// The ledger after all of `adds` were added, in order.
pub open spec fn ledger_after_adds(l: Ledger, adds: Seq<MemberView>, spp: u128, height: u64) -> Ledger
    decreases adds.len(),
{
    if adds.len() == 0 {
        l
    } else {
        ledger_add(ledger_after_adds(l, adds.drop_last(), spp, height), adds.last(), spp, height)
    }
}

/// The ledger after all of `removes` were removed, in order.
pub open spec fn ledger_after_removes(l: Ledger, removes: Seq<Seq<char>>, spp: u128, height: u64) -> Ledger
    decreases removes.len(),
{
    if removes.len() == 0 {
        l
    } else {
        ledger_remove(ledger_after_removes(l, removes.drop_last(), spp, height), removes.last(), spp, height)
    }
}

/// Every step of adding `adds` can be computed.
pub open spec fn adds_fit(l: Ledger, adds: Seq<MemberView>, spp: u128, height: u64) -> bool {
    forall|i: int|
        0 <= i < adds.len() ==> ledger_set_fits(
            #[trigger] ledger_after_adds(l, adds.take(i), spp, height),
            adds[i].addr,
            Some(adds[i].points),
            spp,
            height,
        )
}

/// Every step of removing `removes` can be computed.
pub open spec fn removes_fit(l: Ledger, removes: Seq<Seq<char>>, spp: u128, height: u64) -> bool {
    forall|i: int|
        0 <= i < removes.len() ==> {
            let at = #[trigger] ledger_after_removes(l, removes.take(i), spp, height);
            at.members.points.contains_key(removes[i]) ==> ledger_set_fits(at, removes[i], None, spp, height)
        }
}

/// The ledger after one update: first the additions, then the removals.
pub open spec fn ledger_updated(
    l: Ledger,
    adds: Seq<MemberView>,
    removes: Seq<Seq<char>>,
    spp: u128,
    height: u64,
) -> Ledger {
    ledger_after_removes(ledger_after_adds(l, adds, spp, height), removes, spp, height)
}

/// Every step of the update can be computed.
pub open spec fn update_fits(
    l: Ledger,
    adds: Seq<MemberView>,
    removes: Seq<Seq<char>>,
    spp: u128,
    height: u64,
) -> bool {
    &&& adds_fit(l, adds, spp, height)
    &&& removes_fit(ledger_after_adds(l, adds, spp, height), removes, spp, height)
}

/// The points after one halving: a member with more than one point keeps
/// its points less half of them, rounded down; others keep what they have.
pub open spec fn halved(p: u64) -> u64 {
    if p > 1 {
        (p - p / 2) as u64
    } else {
        p
    }
}

/// All that the engagement engine keeps.
#[derive(Clone, Debug, PartialEq, Eq)]
pub struct Engagement {
    pub admin: Admin,
    pub hooks: Hooks,
    pub preauth_hooks: Preauth,
    pub preauth_slashing: Preauth,
    pub slashers: Slashers,
    pub members: Members,
    pub halflife: Halflife,
    pub distribution: Distribution,
    pub adjustments: AddrMap<WithdrawAdjustment>,
}

/// The views of the adjustments in `m`.
pub open spec fn adjust_view(m: Map<Seq<char>, WithdrawAdjustment>) -> Adjustments {
    Map::new(|k: Seq<char>| m.contains_key(k), |k: Seq<char>| m[k]@)
}

/// Every address on record in `adjust` has withdrawn no more than it has earned.
pub open spec fn all_solvent(spp: u128, points: Map<Seq<char>, u64>, adjust: Adjustments) -> bool {
    forall|a: Seq<char>| #[trigger]
        adjust.contains_key(a) ==> account_solvent(spp, points_or_zero(lookup(points, a)), adjust[a])
}

/// The shares that an entry of the adjustments has earned, at `spp` shares
/// per point and with the points of `points`.
pub open spec fn shares_measure(spp: u128, points: Map<Seq<char>, u64>) -> spec_fn(
    Seq<char>,
    WithdrawAdjustment,
) -> int {
    |k: Seq<char>, a: WithdrawAdjustment|
        entitlement(spp, points_or_zero(lookup(points, k)), a.shares_correction as int)
}

/// The tokens that an entry of the adjustments has withdrawn.
pub open spec fn withdrawn_measure() -> spec_fn(Seq<char>, WithdrawAdjustment) -> int {
    |k: Seq<char>, a: WithdrawAdjustment| a.withdrawn_rewards as int
}

/// The points of the address of an entry of the adjustments.
pub open spec fn held_points_measure(points: Map<Seq<char>, u64>) -> spec_fn(Seq<char>, WithdrawAdjustment) -> int {
    |k: Seq<char>, a: WithdrawAdjustment| points_or_zero(lookup(points, k))
}

/// The tokens that an entry of the adjustments can withdraw.
pub open spec fn withdrawable_measure(spp: u128, points: Map<Seq<char>, u64>) -> spec_fn(
    Seq<char>,
    WithdrawAdjustment,
) -> int {
    |k: Seq<char>, a: WithdrawAdjustment| withdrawable_of(spp, points_or_zero(lookup(points, k)), a@)
}

impl Engagement {
    /// The books balance: the shares that all addresses have earned and the
    /// shares left over are the shares of all tokens ever distributed; the
    /// tokens withdrawn and the tokens withdrawable are the tokens ever
    /// distributed; and every member has an adjustment on record.
    pub open spec fn balanced(&self) -> bool {
        let d = self.distribution;
        let points = self.members@.points;
        &&& self.adjustments.total(shares_measure(d.shares_per_point, points)) + d.shares_leftover
            == d.distributed_total * SHARES_UNIT
        &&& self.adjustments.total(withdrawn_measure()) + d.withdrawable_total == d.distributed_total
        &&& self.adjustments.total(held_points_measure(points)) == self.members@.total
        &&& forall|a: Seq<char>| points.contains_key(a) ==> self.adjustments@.contains_key(a)
    }

    /// The members and the adjustments are well-formed.
    pub open spec fn wf(&self) -> bool {
        &&& self.members.wf()
        &&& self.adjustments.wf()
    }

    /// The adjustments on record.
    pub open spec fn adjust(&self) -> Adjustments {
        adjust_view(self.adjustments@)
    }

    /// No address has withdrawn more than it has earned, and the books balance.
    pub open spec fn solvent(&self) -> bool {
        &&& all_solvent(self.distribution.shares_per_point, self.members@.points, self.adjust())
        &&& self.balanced()
    }

    /// The members and adjustments, with no change made yet.
    pub open spec fn ledger(&self) -> Ledger {
        Ledger { members: self.members@, adjust: self.adjust(), diffs: Seq::empty() }
    }

    /// What the update on record in `l` leaves of the engine: the rest is as in `self`.
    pub open spec fn holds(&self, l: Ledger) -> bool {
        &&& self.members@ == l.members
        &&& self.adjust() == l.adjust
    }

    /// Everything but the members, the adjustments and the distribution is as in `other`.
    pub open spec fn same_registries(&self, other: &Engagement) -> bool {
        &&& self.admin == other.admin
        &&& self.hooks == other.hooks
        &&& self.preauth_hooks == other.preauth_hooks
        &&& self.preauth_slashing == other.preauth_slashing
        &&& self.slashers == other.slashers
        &&& self.halflife == other.halflife
    }
}

/// A change of points with its correction leaves what the address has earned
/// as it was, so an address that was solvent stays so.
pub proof fn lemma_set_keeps_solvent(l: Ledger, addr: Seq<char>, new: Option<u64>, spp: u128, height: u64)
    requires
        all_solvent(spp, l.members.points, l.adjust),
    ensures
        all_solvent(
            spp,
            ledger_set(l, addr, new, spp, height).members.points,
            ledger_set(l, addr, new, spp, height).adjust,
        ),
{
    let l2 = ledger_set(l, addr, new, spp, height);
    let old = lookup(l.members.points, addr);
    let delta = points_or_zero(new) - points_or_zero(old);
    let base = adjustment_of(l.adjust, addr);
    assert forall|a: Seq<char>| #[trigger] l2.adjust.contains_key(a) implies account_solvent(
        spp,
        points_or_zero(lookup(l2.members.points, a)),
        l2.adjust[a],
    ) by {
        if a == addr {
            let held = points_or_zero(old);
            let next_points = points_or_zero(new);
            assert(lookup(l2.members.points, a) == new);
            assert(spp * next_points + (base.shares_correction - spp * (next_points - held)) == spp * held + base.shares_correction)
                by (nonlinear_arith);
            if l.adjust.contains_key(addr) {
                assert(account_solvent(spp, held, l.adjust[addr]));
            } else {
                assert(spp * held >= 0) by (nonlinear_arith)
                    requires
                        spp >= 0,
                        held >= 0,
                ;
            }
        } else {
            assert(l.adjust.contains_key(a));
            assert(lookup(l2.members.points, a) == lookup(l.members.points, a));
        }
    }
}

/// More shares per point keep every address solvent.
pub proof fn lemma_more_shares_keep_solvent(spp: u128, more: u128, points: Map<Seq<char>, u64>, adjust: Adjustments)
    requires
        all_solvent(spp, points, adjust),
        spp <= more,
    ensures
        all_solvent(more, points, adjust),
{
    assert forall|a: Seq<char>| #[trigger] adjust.contains_key(a) implies account_solvent(
        more,
        points_or_zero(lookup(points, a)),
        adjust[a],
    ) by {
        let p = points_or_zero(lookup(points, a));
        assert(account_solvent(spp, p, adjust[a]));
        assert(spp * p <= more * p) by (nonlinear_arith)
            requires
                spp <= more,
                p >= 0,
        ;
    }
}


/// A change of the points of `addr` with its correction keeps the books balanced.
pub proof fn lemma_step_keeps_balanced(
    pre: &Engagement,
    post: &Engagement,
    addr: Seq<char>,
    new: Option<u64>,
    height: u64,
)
    requires
        pre.wf(),
        pre.balanced(),
        post.wf(),
        post.members@ == members_set(pre.members@, addr, new, height),
        post.distribution == pre.distribution,
        post.adjust() == corrected(
            pre.adjust(),
            addr,
            pre.distribution.shares_per_point,
            points_or_zero(new) - points_or_zero(lookup(pre.members@.points, addr)),
        ),
        forall|f: spec_fn(Seq<char>, WithdrawAdjustment) -> int| #[trigger]
            post.adjustments.total(f) == pre.adjustments.total(f) + f(addr, post.adjustments@[addr]) - (
            if pre.adjustments.has(addr) {
                f(addr, pre.adjustments@[addr])
            } else {
                0
            }),
    ensures
        post.balanced(),
{
    let spp = pre.distribution.shares_per_point;
    let held = points_or_zero(lookup(pre.members@.points, addr));
    let next_points = points_or_zero(new);
    let held_map = pre.members@.points;
    let next_map = post.members@.points;
    let nv = post.adjustments@[addr];
    let base = adjustment_of(pre.adjust(), addr);
    assert(post.adjust().contains_key(addr));
    assert(nv@ == post.adjust()[addr]);
    assert(nv@.shares_correction == base.shares_correction - spp * (next_points - held));
    assert(nv@.withdrawn_rewards == base.withdrawn_rewards);
    assert(lookup(next_map, addr) == new);
    if !pre.adjustments.has(addr) {
        assert(!pre.adjustments@.contains_key(addr));
        assert(!held_map.contains_key(addr));
        assert(held == 0);
    } else {
        assert(pre.adjustments@.contains_key(addr));
        assert(pre.adjust()[addr] == pre.adjustments@[addr]@);
    }
    assert(spp * next_points + (base.shares_correction - spp * (next_points - held)) == spp * held + base.shares_correction)
        by (nonlinear_arith);
    assert(spp * 0 == 0) by (nonlinear_arith);
    // the shares
    let shares_then = shares_measure(spp, held_map);
    let shares_now = shares_measure(spp, next_map);
    assert forall|i: int|
        0 <= i < pre.adjustments.entries@.len() && pre.adjustments.entries@[i].key@ != addr implies shares_then(
        pre.adjustments.entries@[i].key@,
        pre.adjustments.entries@[i].value,
    ) == shares_now(#[trigger] pre.adjustments.entries@[i].key@, pre.adjustments.entries@[i].value) by {
        let k = pre.adjustments.entries@[i].key@;
        assert(lookup(next_map, k) == lookup(held_map, k));
    }
    pre.adjustments.lemma_total_differs_at(shares_then, shares_now, addr);
    assert(post.adjustments.total(shares_now) == pre.adjustments.total(shares_then));
    // the tokens withdrawn
    let w = withdrawn_measure();
    assert(post.adjustments.total(w) == pre.adjustments.total(w));
    // the points
    let points_then = held_points_measure(held_map);
    let points_now = held_points_measure(next_map);
    assert forall|i: int|
        0 <= i < pre.adjustments.entries@.len() && pre.adjustments.entries@[i].key@ != addr implies points_then(
        pre.adjustments.entries@[i].key@,
        pre.adjustments.entries@[i].value,
    ) == points_now(#[trigger] pre.adjustments.entries@[i].key@, pre.adjustments.entries@[i].value) by {
        let k = pre.adjustments.entries@[i].key@;
        assert(lookup(next_map, k) == lookup(held_map, k));
    }
    pre.adjustments.lemma_total_differs_at(points_then, points_now, addr);
    assert(post.adjustments.total(points_now) == pre.adjustments.total(points_then) + next_points - held);
    // every member has an adjustment
    assert forall|a: Seq<char>| next_map.contains_key(a) implies post.adjustments@.contains_key(a) by {
        if a != addr {
            assert(held_map.contains_key(a));
            assert(pre.adjustments@.contains_key(a));
            assert(pre.adjust().contains_key(a));
            assert(post.adjust().contains_key(a));
        }
    }
}


/// The tokens that an entry of the adjustments has earned.
pub open spec fn earned_measure(spp: u128, points: Map<Seq<char>, u64>) -> spec_fn(
    Seq<char>,
    WithdrawAdjustment,
) -> int {
    |k: Seq<char>, a: WithdrawAdjustment| earned(spp, points_or_zero(lookup(points, k)), a@)
}

/// In an engine whose books balance, what all addresses together can
/// withdraw is at most the total of the withdrawable tokens, and so is what
/// any single address can withdraw. What the total holds beyond that are the
/// shares left over and, for each address, a part of a token that its shares
/// fall short of.
pub proof fn lemma_withdrawable_within_total(state: &Engagement)
    requires
        state.wf(),
        state.solvent(),
    ensures
        state.adjustments.total(
            withdrawable_measure(state.distribution.shares_per_point, state.members@.points),
        ) <= state.distribution.withdrawable_total,
        (state.distribution.withdrawable_total - state.adjustments.total(
            withdrawable_measure(state.distribution.shares_per_point, state.members@.points),
        )) * SHARES_UNIT <= state.distribution.shares_leftover + state.adjustments.entries@.len() * (SHARES_UNIT
            - 1),
        forall|a: Seq<char>|
            state.adjust().contains_key(a) ==> 0 <= #[trigger] withdrawable_of(
                state.distribution.shares_per_point,
                points_or_zero(lookup(state.members@.points, a)),
                state.adjust()[a],
            ) <= state.distribution.withdrawable_total,
{
    let spp = state.distribution.shares_per_point;
    let pts = state.members@.points;
    let m = state.adjustments;
    let u = SHARES_UNIT as int;
    let x = shares_measure(spp, pts);
    let e = earned_measure(spp, pts);
    let w = withdrawn_measure();
    let wd = withdrawable_measure(spp, pts);
    let eu = |k: Seq<char>, a: WithdrawAdjustment| e(k, a) * u;
    let one = |k: Seq<char>, a: WithdrawAdjustment| 1int;
    let zero = |k: Seq<char>, a: WithdrawAdjustment| 0int;
    let slack = |k: Seq<char>, a: WithdrawAdjustment| e(k, a) * u + (u - 1);
    assert forall|i: int| 0 <= i < m.entries@.len() implies {
        let k = #[trigger] m.entries@[i].key@;
        let a = m.entries@[i].value;
        &&& wd(k, a) == e(k, a) + (-1) * w(k, a)
        &&& eu(k, a) == e(k, a) + (u - 1) * e(k, a)
        &&& eu(k, a) <= x(k, a)
        &&& x(k, a) <= slack(k, a)
        &&& slack(k, a) == eu(k, a) + (u - 1) * one(k, a)
        &&& one(k, a) == zero(k, a) + 1 * one(k, a)
        &&& wd(k, a) >= 0
    } by {
        let k = m.entries@[i].key@;
        let a = m.entries@[i].value;
        m.lemma_slot(i);
        assert(state.adjust().contains_key(k) && state.adjust()[k] == a@);
        let p = points_or_zero(lookup(pts, k));
        assert(account_solvent(spp, p, a@));
        lemma_withdrawable(spp, p, a@);
        let xv = x(k, a);
        let ev = e(k, a);
        assert(ev == xv / u);
        assert(ev * u <= xv && xv <= ev * u + (u - 1) && ev * u == ev + (u - 1) * ev) by (nonlinear_arith)
            requires
                ev == xv / u,
                u > 0,
        ;
    }
    m.lemma_total_linear(e, w, wd, -1);
    m.lemma_total_linear(e, e, eu, u - 1);
    m.lemma_total_le(eu, x);
    m.lemma_total_le(x, slack);
    m.lemma_total_linear(eu, one, slack, u - 1);
    m.lemma_total_linear(zero, one, one, 1);
    lemma_count(m.entries@.len() as int, crate::keyed::measures(m.entries@, one));
    lemma_zeros(crate::keyed::measures(m.entries@, zero));
    let te = m.total(e);
    let tx = m.total(x);
    let d = state.distribution.distributed_total as int;
    let n = m.entries@.len() as int;
    assert(m.total(eu) == u * te) by (nonlinear_arith)
        requires
            m.total(eu) == te + (u - 1) * te,
    ;
    assert(te <= d) by (nonlinear_arith)
        requires
            u * te <= tx,
            tx <= d * u,
            u > 0,
    ;
    assert((d - te) * u <= state.distribution.shares_leftover + n * (u - 1)) by (nonlinear_arith)
        requires
            tx + state.distribution.shares_leftover == d * u,
            tx <= u * te + (u - 1) * n,
    ;
    assert forall|a: Seq<char>| state.adjust().contains_key(a) implies 0 <= #[trigger] withdrawable_of(
        spp,
        points_or_zero(lookup(pts, a)),
        state.adjust()[a],
    ) <= state.distribution.withdrawable_total by {
        assert(m.has(a));
        m.lemma_total_bounds(wd, a);
    }
}

/// A sequence of `n` ones sums to `n`.
proof fn lemma_count(n: int, s: Seq<int>)
    requires
        s.len() == n,
        forall|i: int| 0 <= i < n ==> s[i] == 1,
    ensures
        crate::keyed::seq_sum(s) == n,
    decreases n,
{
    if n > 0 {
        lemma_count(n - 1, s.drop_last());
    }
}

/// A sequence of zeros sums to zero.
proof fn lemma_zeros(s: Seq<int>)
    requires
        forall|i: int| 0 <= i < s.len() ==> s[i] == 0,
    ensures
        crate::keyed::seq_sum(s) == 0,
    decreases s.len(),
{
    if s.len() > 0 {
        lemma_zeros(s.drop_last());
    }
}

} // verus!
