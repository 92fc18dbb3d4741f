//! Whether an operation of the engagement engine can be computed within the
//! limits of the machine, told before it is run.

use crate::engagement::contract::{
    apply_points_correction, distribute_fits, execute_requires, halving_fits, named_or, query_requires,
    sudo_requires, undistributed, withdraw_fits,
};
use crate::engagement::msg::{ExecuteMsg, QueryMsg, SudoMsg};
use crate::engagement::state::{
    adds_fit, adjustment_of, correction_fits, ledger_after_adds, ledger_after_removes, ledger_set_fits,
    removes_fit, update_fits, Engagement, WithdrawAdjustment, MAX_SHIFTABLE, SHARES_UNIT,
};
use crate::decimal::share_of;
use crate::keyed::{AddrMap, Entry};
use crate::members::{Change, Members};
use crate::types::{views, Env, Member, MemberView, MessageInfo};
use vstd::prelude::*;

verus! {

/// Whether the correction for a change of the points of `addr` by `delta` can be computed.
pub fn correction_fits_now(state: &Engagement, addr: &String, delta: i128) -> (r: bool)
    requires
        state.adjustments.wf(),
    ensures
        r == correction_fits(state.adjust(), addr@, state.distribution.shares_per_point, delta as int),
{
    let spp = state.distribution.shares_per_point;
    if spp > i128::MAX as u128 {
        return false;
    }
    let base: i128 = match state.adjustments.get(addr) {
        Some(a) => {
            assert(a@ == state.adjust()[addr@]);
            a.shares_correction
        },
        None => 0,
    };
    assert(base == adjustment_of(state.adjust(), addr@).shares_correction);
    match (spp as i128).checked_mul(delta) {
        Some(change) => base.checked_sub(change).is_some(),
        None => false,
    }
}

/// Whether the points of `addr` can be set to `new` (or the member taken out, for `None`).
pub fn points_change_fits(state: &Engagement, addr: &String, new: Option<u64>, height: u64) -> (r: bool)
    requires
        state.wf(),
    ensures
        r == ledger_set_fits(state.ledger(), addr@, new, state.distribution.shares_per_point, height),
{
    let old: u64 = match state.members.may_load(addr) {
        Some(p) => p,
        None => 0,
    };
    let next: u64 = match new {
        Some(p) => p,
        None => 0,
    };
    let total = state.members.total();
    proof {
        if state.members.current.has(addr@) {
            let i = state.members.current.slot(addr@);
            state.members.current.lemma_slot(i);
            let m = crate::keyed::measures(state.members.current.entries@, crate::members::points_measure());
            assert forall|j: int| 0 <= j < m.len() implies m[j] >= 0 by {}
            crate::keyed::lemma_sum_bounds(m, i);
        }
    }
    if (total - old) as u128 + next as u128 > u64::MAX as u128 {
        return false;
    }
    correction_fits_now(state, addr, next as i128 - old as i128)
}

/// Whether a distribution at the balance `balance` can be computed: the
/// balance holds the withdrawable tokens, and the sums fit.
pub fn distribution_fits(state: &Engagement, balance: u128) -> (r: bool)
    requires
        state.wf(),
    ensures
        r == (balance >= state.distribution.withdrawable_total && (state.members@.total > 0 && undistributed(
            state,
            balance,
        ) > 0 ==> distribute_fits(state, balance))),
{
    if balance < state.distribution.withdrawable_total {
        return false;
    }
    let total = state.members.total() as u128;
    let amount = balance - state.distribution.withdrawable_total;
    if total == 0 || amount == 0 {
        return true;
    }
    if amount > MAX_SHIFTABLE {
        return false;
    }
    assert(amount * SHARES_UNIT <= u128::MAX) by (nonlinear_arith)
        requires
            amount <= MAX_SHIFTABLE,
            SHARES_UNIT == 0x1_0000_0000,
            MAX_SHIFTABLE == 0xffff_ffff_ffff_ffff_ffff_ffff,
    ;
    let shares = match (amount * SHARES_UNIT).checked_add(state.distribution.shares_leftover as u128) {
        Some(s) => s,
        None => {
            return false;
        },
    };
    state.distribution.shares_per_point.checked_add(shares / total).is_some()
        && state.distribution.distributed_total.checked_add(amount).is_some()
}

/// Whether what `owner` has earned can be computed; it can where nothing is on record for it.
pub fn payout_fits(state: &Engagement, owner: &String) -> (r: bool)
    requires
        state.wf(),
    ensures
        r == (state.adjust().contains_key(owner@) ==> withdraw_fits(state, owner@)),
{
    let adj = match state.adjustments.get(owner) {
        Some(a) => a,
        None => {
            return true;
        },
    };
    assert(adj@ == state.adjust()[owner@]);
    let points: u128 = match state.members.may_load(owner) {
        Some(p) => p as u128,
        None => 0,
    };
    let shares = match state.distribution.shares_per_point.checked_mul(points) {
        Some(s) => s,
        None => {
            return false;
        },
    };
    if shares > i128::MAX as u128 {
        return false;
    }
    match (shares as i128).checked_add(adj.shares_correction) {
        Some(_) => true,
        None => {
            // the sum cannot fall below the least number, as the shares are not negative
            false
        },
    }
}

/// Whether the corrections of a halving can be computed.
pub fn halving_fits_now(state: &Engagement) -> (r: bool)
    requires
        state.wf(),
    ensures
        r == halving_fits(state.adjust(), state.members@.points, state.distribution.shares_per_point),
{
    let n = state.members.current.len();
    let mut i: usize = 0;
    while i < n
        invariant
            state.wf(),
            i <= n,
            n == state.members.current.entries@.len(),
            forall|j: int|
                0 <= j < i && (#[trigger] state.members.current.entries@[j]).value > 1 ==> correction_fits(
                    state.adjust(),
                    state.members.current.entries@[j].key@,
                    state.distribution.shares_per_point,
                    -((state.members.current.entries@[j].value / 2) as int),
                ),
        decreases n - i,
    {
        let e = &state.members.current.entries[i];
        if e.value > 1 {
            if !correction_fits_now(state, &e.key, -((e.value / 2) as i128)) {
                proof {
                    state.members.current.lemma_slot(i as int);
                }
                return false;
            }
        }
        i = i + 1;
    }
    proof {
        assert forall|a: Seq<char>|
            state.members@.points.contains_key(a) && state.members@.points[a] > 1 implies #[trigger] correction_fits(
            state.adjust(),
            a,
            state.distribution.shares_per_point,
            -((state.members@.points[a] / 2) as int),
        ) by {
            let j = state.members.current.slot(a);
            state.members.current.lemma_slot(j);
        }
    }
    true
}

/// A copy of the points.
fn copy_points(m: &AddrMap<u64>) -> (r: AddrMap<u64>)
    ensures
        r.entries@ == m.entries@,
{
    let mut out: Vec<Entry<u64>> = Vec::new();
    let mut i: usize = 0;
    while i < m.entries.len()
        invariant
            i <= m.entries@.len(),
            out@ == m.entries@.take(i as int),
        decreases m.entries@.len() - i,
    {
        let e = &m.entries[i];
        out.push(Entry { key: e.key.clone(), value: e.value });
        assert(out@ =~= m.entries@.take(i + 1));
        i = i + 1;
    }
    assert(m.entries@.take(m.entries@.len() as int) =~= m.entries@);
    AddrMap { entries: out }
}

/// A copy of the adjustments.
fn copy_adjustments(m: &AddrMap<WithdrawAdjustment>) -> (r: AddrMap<WithdrawAdjustment>)
    ensures
        r.entries@ == m.entries@,
{
    let mut out: Vec<Entry<WithdrawAdjustment>> = Vec::new();
    let mut i: usize = 0;
    while i < m.entries.len()
        invariant
            i <= m.entries@.len(),
            out@ == m.entries@.take(i as int),
        decreases m.entries@.len() - i,
    {
        let e = &m.entries[i];
        out.push(
            Entry {
                key: e.key.clone(),
                value: WithdrawAdjustment {
                    shares_correction: e.value.shares_correction,
                    withdrawn_rewards: e.value.withdrawn_rewards,
                    delegated: e.value.delegated.clone(),
                },
            },
        );
        assert(out@ =~= m.entries@.take(i + 1));
        i = i + 1;
    }
    assert(m.entries@.take(m.entries@.len() as int) =~= m.entries@);
    AddrMap { entries: out }
}

/// A copy of the record of changes.
fn copy_changes(changes: &Vec<Change>) -> (r: Vec<Change>)
    ensures
        r@ == changes@,
{
    let mut out: Vec<Change> = Vec::new();
    let mut i: usize = 0;
    while i < changes.len()
        invariant
            i <= changes@.len(),
            out@ == changes@.take(i as int),
        decreases changes@.len() - i,
    {
        let c = &changes[i];
        out.push(Change { addr: c.addr.clone(), height: c.height, old: c.old });
        assert(out@ =~= changes@.take(i + 1));
        i = i + 1;
    }
    assert(changes@.take(changes@.len() as int) =~= changes@);
    out
}

/// A copy of the members, the adjustments and the pool, to try an update on.
fn working_copy(state: &Engagement) -> (r: Engagement)
    requires
        state.wf(),
    ensures
        r.wf(),
        r.members@ == state.members@,
        r.adjust() == state.adjust(),
        r.distribution.shares_per_point == state.distribution.shares_per_point,
{
    let r = Engagement {
        admin: crate::controllers::Admin::new(None),
        hooks: crate::controllers::Hooks::new(),
        preauth_hooks: crate::controllers::Preauth::new(0),
        preauth_slashing: crate::controllers::Preauth::new(0),
        slashers: crate::controllers::Slashers::new(),
        members: Members {
            current: copy_points(&state.members.current),
            changes: copy_changes(&state.members.changes),
            total: state.members.total,
        },
        halflife: state.halflife,
        distribution: state.distribution.duplicate(),
        adjustments: copy_adjustments(&state.adjustments),
    };
    proof {
        assert(r.members.current@ =~= state.members.current@);
        assert(r.adjustments@ =~= state.adjustments@);
        assert(r.adjust() =~= state.adjust());
    }
    r
}

/// Whether every step of an update of the members can be computed.
pub fn update_fits_now(state: &Engagement, to_add: &Vec<Member>, to_remove: &Vec<String>, height: u64) -> (r: bool)
    requires
        state.wf(),
    ensures
        r == update_fits(
            state.ledger(),
            views(to_add@),
            views(to_remove@),
            state.distribution.shares_per_point,
            height,
        ),
{
    let ghost l0 = state.ledger();
    let ghost adds = views(to_add@);
    let ghost removes = views(to_remove@);
    let mut work = working_copy(state);
    let ppw = work.distribution.shares_per_point;
    let mut i: usize = 0;
    proof {
        assert(adds.take(0) =~= Seq::<MemberView>::empty());
    }
    while i < to_add.len()
        invariant
            i <= to_add@.len(),
            adds == views(to_add@),
            removes == views(to_remove@),
            l0 == state.ledger(),
            work.wf(),
            ppw == work.distribution.shares_per_point,
            ppw == state.distribution.shares_per_point,
            work.holds(ledger_after_adds(l0, adds.take(i as int), ppw, height)),
            forall|k: int|
                0 <= k < i ==> ledger_set_fits(
                    #[trigger] ledger_after_adds(l0, adds.take(k), ppw, height),
                    adds[k].addr,
                    Some(adds[k].points),
                    ppw,
                    height,
                ),
        decreases to_add@.len() - i,
    {
        let add = &to_add[i];
        proof {
            assert(adds[i as int] == add@);
            assert(adds.take(i + 1).drop_last() =~= adds.take(i as int));
            assert(adds.take(i + 1).last() == add@);
        }
        if !points_change_fits(&work, &add.addr, Some(add.points), height) {
            assert(!ledger_set_fits(
                ledger_after_adds(l0, adds.take(i as int), ppw, height),
                adds[i as int].addr,
                Some(adds[i as int].points),
                ppw,
                height,
            ));
            return false;
        }
        let old = work.members.set(&add.addr, Some(add.points), height);
        let diff: i128 = add.points as i128 - (match old {
            Some(p) => p as i128,
            None => 0i128,
        });
        apply_points_correction(&mut work, &add.addr, ppw, diff);
        i = i + 1;
    }
    let ghost l1 = ledger_after_adds(l0, adds, ppw, height);
    proof {
        assert(adds.take(adds.len() as int) =~= adds);
        assert(adds_fit(l0, adds, ppw, height));
        assert(removes.take(0) =~= Seq::<Seq<char>>::empty());
    }
    let mut j: usize = 0;
    while j < to_remove.len()
        invariant
            j <= to_remove@.len(),
            removes == views(to_remove@),
            adds == views(to_add@),
            l0 == state.ledger(),
            l1 == ledger_after_adds(l0, adds, ppw, height),
            adds_fit(l0, adds, ppw, height),
            work.wf(),
            ppw == work.distribution.shares_per_point,
            ppw == state.distribution.shares_per_point,
            work.holds(ledger_after_removes(l1, removes.take(j as int), ppw, height)),
            forall|k: int|
                0 <= k < j ==> {
                    let at = #[trigger] ledger_after_removes(l1, removes.take(k), ppw, height);
                    at.members.points.contains_key(removes[k]) ==> ledger_set_fits(at, removes[k], None, ppw, height)
                },
        decreases to_remove@.len() - j,
    {
        let remove = &to_remove[j];
        proof {
            assert(removes[j as int] == remove@);
            assert(removes.take(j + 1).drop_last() =~= removes.take(j as int));
            assert(removes.take(j + 1).last() == remove@);
        }
        match work.members.may_load(remove) {
            Some(points) => {
                if !points_change_fits(&work, remove, None, height) {
                    let ghost at = ledger_after_removes(l1, removes.take(j as int), ppw, height);
                    assert(at.members.points.contains_key(removes[j as int]) && !ledger_set_fits(
                        at,
                        removes[j as int],
                        None,
                        ppw,
                        height,
                    ));
                    return false;
                }
                work.members.set(remove, None, height);
                apply_points_correction(&mut work, remove, ppw, -(points as i128));
            },
            None => {},
        }
        j = j + 1;
    }
    proof {
        assert(removes_fit(l1, removes, ppw, height));
    }
    true
}

/// Whether `execute` may be called with these inputs in a state that is well-formed and solvent.
pub fn execute_fits(state: &Engagement, env: &Env, info: &MessageInfo, msg: &ExecuteMsg, balance: u128) -> (r:
    bool)
    requires
        state.wf(),
        state.solvent(),
    ensures
        r == execute_requires(state, env, info, *msg, balance),
{
    match msg {
        ExecuteMsg::UpdateMembers { remove, add } => {
            !state.admin.is_admin(&info.sender) || update_fits_now(state, add, remove, env.block.height)
        },
        ExecuteMsg::AddPoints { addr, points } => {
            if !state.admin.is_admin(&info.sender) {
                true
            } else {
                let old: u64 = match state.members.may_load(addr) {
                    Some(p) => p,
                    None => 0,
                };
                match old.checked_add(*points) {
                    Some(next) => points_change_fits(state, addr, Some(next), env.block.height),
                    None => false,
                }
            }
        },
        ExecuteMsg::DistributeRewards { sender } => distribution_fits(state, balance),
        ExecuteMsg::WithdrawRewards { owner, receiver } => {
            let who = match owner {
                Some(o) => o,
                None => &info.sender,
            };
            assert(who@ == named_or(*owner, info.sender@));
            match state.adjustments.get(who) {
                Some(adj) => {
                    assert(adj@ == state.adjust()[who@]);
                    if info.sender == *who || info.sender == adj.delegated {
                        payout_fits(state, who)
                    } else {
                        true
                    }
                },
                None => true,
            }
        },
        ExecuteMsg::Slash { addr, portion } => {
            if !state.slashers.is_slasher(&info.sender) || !portion.is_portion() {
                true
            } else {
                match state.members.may_load(addr) {
                    Some(points) => {
                        let slash = share_of(points as u128, *portion);
                        correction_fits_now(state, addr, -(slash as i128))
                    },
                    None => true,
                }
            }
        },
        _ => true,
    }
}

/// Whether `sudo` may be called with these inputs in a state that is well-formed and solvent.
pub fn sudo_fits(state: &Engagement, env: &Env, msg: &SudoMsg) -> (r: bool)
    requires
        state.wf(),
        state.solvent(),
    ensures
        r == sudo_requires(state, env, *msg),
{
    match msg {
        SudoMsg::UpdateMember(member) => points_change_fits(state, &member.addr, Some(member.points), env.block.height),
        SudoMsg::EndBlock => {
            let in_range = match state.halflife.halflife {
                Some(d) => d.ends_in_range(state.halflife.last_applied),
                None => true,
            };
            if !in_range {
                false
            } else if state.halflife.should_apply(env.block.time) {
                halving_fits_now(state)
            } else {
                true
            }
        },
        _ => true,
    }
}

/// Whether `query` may be called with these inputs in a state that is well-formed and solvent.
pub fn query_fits(state: &Engagement, msg: &QueryMsg, balance: u128) -> (r: bool)
    requires
        state.wf(),
        state.solvent(),
    ensures
        r == query_requires(state, *msg, balance),
{
    match msg {
        QueryMsg::WithdrawableRewards { owner } => payout_fits(state, owner),
        QueryMsg::UndistributedRewards => balance >= state.distribution.withdrawable_total,
        QueryMsg::Halflife => match state.halflife.halflife {
            Some(d) => d.ends_in_range(state.halflife.last_applied),
            None => true,
        },
        _ => true,
    }
}

} // verus!
