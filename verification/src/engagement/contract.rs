//! The operations of the engagement engine.

use crate::controllers::{hook_msgs, opt_text, Admin, Hooks, Preauth, Slashers};
use crate::error::ContractError;
use crate::engagement::msg::{InstantiateMsg, MemberChangedHookMsg};
use crate::engagement::state::{
    adds_fit, adjustment_of, corrected, correction_fits, ledger_add, ledger_after_adds, ledger_after_removes,
    ledger_set, ledger_set_fits, ledger_updated, lemma_set_keeps_solvent, removes_fit, update_fits,
    Distribution, Engagement, Halflife, Ledger, WithdrawAdjustment, MAX_SHIFTABLE, SHARES_SHIFT, SHARES_UNIT,
};
use crate::engagement::state::{
    halved, held_points_measure, lemma_step_keeps_balanced, shares_measure, withdrawn_measure, Adjustments,
};
use crate::keyed::{keys_of, AddrMap};
use crate::members::{ChangeLog, MembersView, points_at};
use crate::types::{Event, EventView, Privilege};
use crate::engagement::msg::{
    DelegatedResponse, ExecuteMsg, HalflifeInfo, HalflifeResponse, MemberListResponse, MemberResponse,
    MigrateMsg, PrivilegeChangeMsg, QueryMsg, QueryResponse, RewardsResponse, SudoMsg, TotalPointsResponse,
};
use crate::members::{lookup, members_set, points_or_zero, Members};
use crate::time::Duration;
use crate::decimal::{portion_of, share_of, validate_portion, Decimal, DECIMAL_FRACTIONAL};
use crate::engagement::state::{account_fits, account_solvent, withdrawable_of, AdjustmentView, delegated_to, lemma_more_shares_keep_solvent, lemma_withdrawable};
use crate::types::{
    attr_view, coin, decimal_text, empty_response, number_text, views, CoinView, DiffView, Env, Member,
    MemberDiff, MemberView, MessageInfo, Msg, MsgView, Response, ResponseView, Timestamp, Coin,
};
use vstd::prelude::*;

verus! {

/// `amount` shifted to the left by `SHARES_SHIFT` bits.
pub fn to_shares(amount: u128) -> (r: u128)
    requires
        amount <= MAX_SHIFTABLE,
    ensures
        r == amount * SHARES_UNIT,
{
    assert(amount << 32u32 == amount * 0x1_0000_0000u128) by (bit_vector)
        requires
            amount <= 0xffff_ffff_ffff_ffff_ffff_ffffu128,
    ;
    assert(amount * 0x1_0000_0000u128 <= u128::MAX) by (nonlinear_arith)
        requires
            amount <= 0xffff_ffff_ffff_ffff_ffff_ffffu128,
    ;
    amount << SHARES_SHIFT
}

/// `shares` shifted to the right by `SHARES_SHIFT` bits.
pub fn to_tokens(shares: u128) -> (r: u128)
    ensures
        r == shares / SHARES_UNIT,
{
    assert(shares >> 32u32 == shares / 0x1_0000_0000u128) by (bit_vector);
    shares >> SHARES_SHIFT
}

/// The members of `list` as a ledger would take them in, one after the other, with no adjustment yet.
pub open spec fn founding_ledger(list: Seq<MemberView>, height: u64) -> Ledger {
    ledger_after_adds(
        Ledger {
            members: crate::members::MembersView { points: Map::empty(), log: Map::empty(), total: 0 },
            adjust: Map::empty(),
            diffs: Seq::empty(),
        },
        list,
        0,
        height,
    )
}

/// The total stays within 64 bits while the members of `list` are taken in.
pub open spec fn founding_fits(list: Seq<MemberView>, height: u64) -> bool {
    forall|i: int|
        0 <= i < list.len() ==> members_set(
            (#[trigger] founding_ledger(list.take(i), height)).members,
            list[i].addr,
            Some(list[i].points),
            height,
        ).total <= u64::MAX
}

/// Sets up an engine: the members of `members_list` with their points (of
/// an address named twice, the last entry counts), each with a fresh
/// adjustment; nothing distributed; no hooks and no slashers.
pub fn create(
    admin: Option<String>,
    members_list: Vec<Member>,
    preauths_hooks: u64,
    preauths_slashing: u64,
    height: u64,
    time: Timestamp,
    halflife: Option<Duration>,
    denom: String,
) -> (state: Engagement)
    requires
        founding_fits(views(members_list@), height),
    ensures
        state.wf(),
        state.solvent(),
        state.holds(founding_ledger(views(members_list@), height)),
        state.admin@ == opt_text(admin),
        state.hooks@ == Seq::<Seq<char>>::empty(),
        state.slashers@ == Seq::<Seq<char>>::empty(),
        state.preauth_hooks.count == preauths_hooks,
        state.preauth_slashing.count == preauths_slashing,
        state.halflife == (Halflife { halflife, last_applied: time }),
        state.distribution.denom@ == denom@,
        state.distribution.shares_per_point == 0,
        state.distribution.shares_leftover == 0,
        state.distribution.distributed_total == 0,
        state.distribution.withdrawable_total == 0,
{
    let mut state = Engagement {
        admin: Admin::new(admin),
        hooks: Hooks::new(),
        preauth_hooks: Preauth::new(preauths_hooks),
        preauth_slashing: Preauth::new(preauths_slashing),
        slashers: Slashers::new(),
        members: Members::new(),
        halflife: Halflife { halflife, last_applied: time },
        distribution: Distribution {
            denom,
            shares_per_point: 0,
            shares_leftover: 0,
            distributed_total: 0,
            withdrawable_total: 0,
        },
        adjustments: AddrMap::new(),
    };
    let ghost list = views(members_list@);
    let ghost mut diffs: Seq<crate::types::DiffView> = Seq::empty();
    proof {
        assert(state.adjust() =~= Map::<Seq<char>, crate::engagement::state::AdjustmentView>::empty());
        assert(list.take(0) =~= Seq::<MemberView>::empty());
    }
    let mut i: usize = 0;
    while i < members_list.len()
        invariant
            i <= members_list@.len(),
            list == views(members_list@),
            founding_fits(list, height),
            state.wf(),
            state.solvent(),
            state.distribution.shares_per_point == 0,
            state.holds(founding_ledger(list.take(i as int), height)),
            state.admin@ == opt_text(admin),
            state.hooks@ == Seq::<Seq<char>>::empty(),
            state.slashers@ == Seq::<Seq<char>>::empty(),
            state.preauth_hooks.count == preauths_hooks,
            state.preauth_slashing.count == preauths_slashing,
            state.halflife == (Halflife { halflife, last_applied: time }),
            state.distribution.denom@ == denom@,
            state.distribution.shares_leftover == 0,
            state.distribution.distributed_total == 0,
            state.distribution.withdrawable_total == 0,
        decreases members_list@.len() - i,
    {
        let ghost at = founding_ledger(list.take(i as int), height);
        let member = &members_list[i];
        proof {
            assert(list[i as int] == member@);
            assert(list.take(i + 1).drop_last() =~= list.take(i as int));
            assert(list.take(i + 1).last() == member@);
            lemma_set_keeps_solvent(at, member.addr@, Some(member.points), 0, height);
            let delta = member.points - points_or_zero(lookup(at.members.points, member.addr@));
            assert(0u128 * delta == 0) by (nonlinear_arith);
        }
        let ghost before = state;
        let old = state.members.set(&member.addr, Some(member.points), height);
        let diff: i128 = member.points as i128 - (match old {
            Some(p) => p as i128,
            None => 0i128,
        });
        apply_points_correction(&mut state, &member.addr, 0, diff);
        proof {
            lemma_step_keeps_balanced(&before, &state, member.addr@, Some(member.points), height);
        }
        i = i + 1;
    }
    proof {
        assert(list.take(list.len() as int) =~= list);
    }
    state
}

/// Sets up the engine that `msg` describes, in the block of `env`.
pub fn instantiate(env: &Env, msg: InstantiateMsg) -> (r: Result<(Engagement, Response), ContractError>)
    requires
        founding_fits(views(msg.members@), env.block.height),
    ensures
        r.is_ok(),
        r.unwrap().1@ == empty_response(),
        r.unwrap().0.wf(),
        r.unwrap().0.solvent(),
        r.unwrap().0.holds(founding_ledger(views(msg.members@), env.block.height)),
        r.unwrap().0.admin@ == opt_text(msg.admin),
        r.unwrap().0.hooks@ == Seq::<Seq<char>>::empty(),
        r.unwrap().0.slashers@ == Seq::<Seq<char>>::empty(),
        r.unwrap().0.preauth_hooks.count == msg.preauths_hooks,
        r.unwrap().0.preauth_slashing.count == msg.preauths_slashing,
        r.unwrap().0.halflife == (Halflife { halflife: msg.halflife, last_applied: env.block.time }),
        r.unwrap().0.distribution.denom@ == msg.denom@,
        r.unwrap().0.distribution.shares_per_point == 0,
        r.unwrap().0.distribution.shares_leftover == 0,
        r.unwrap().0.distribution.distributed_total == 0,
        r.unwrap().0.distribution.withdrawable_total == 0,
{
    let state = create(
        msg.admin,
        msg.members,
        msg.preauths_hooks,
        msg.preauths_slashing,
        env.block.height,
        env.block.time,
        msg.halflife,
        msg.denom,
    );
    Ok((state, Response::new()))
}

/// Takes a change of the points of `addr` by `diff` into its correction, at
/// `shares_per_point` shares per point. An address without an adjustment gets
/// a fresh one first.
pub fn apply_points_correction(state: &mut Engagement, addr: &String, shares_per_point: u128, diff: i128)
    requires
        old(state).adjustments.wf(),
        correction_fits(old(state).adjust(), addr@, shares_per_point, diff as int),
    ensures
        final(state).adjustments.wf(),
        final(state).adjust() == corrected(old(state).adjust(), addr@, shares_per_point, diff as int),
        forall|f: spec_fn(Seq<char>, WithdrawAdjustment) -> int| #[trigger]
            final(state).adjustments.total(f) == old(state).adjustments.total(f) + f(
                addr@,
                final(state).adjustments@[addr@],
            ) - (if old(state).adjustments.has(addr@) {
                f(addr@, old(state).adjustments@[addr@])
            } else {
                0
            }),
        final(state).members == old(state).members,
        final(state).distribution == old(state).distribution,
        final(state).same_registries(old(state)),
{
    let base = match state.adjustments.get(addr) {
        Some(a) => a.duplicate(),
        None => WithdrawAdjustment { shares_correction: 0, withdrawn_rewards: 0, delegated: addr.clone() },
    };
    assert(base@ == adjustment_of(state.adjust(), addr@));
    let change: i128 = (shares_per_point as i128) * diff;
    let next = WithdrawAdjustment {
        shares_correction: base.shares_correction - change,
        withdrawn_rewards: base.withdrawn_rewards,
        delegated: base.delegated,
    };
    state.adjustments.insert(addr.clone(), next);
    assert(state.adjust() =~= corrected(old(state).adjust(), addr@, shares_per_point, diff as int));
}

/// Adds the members of `to_add`, replacing the points of those that are
/// members already, then removes the addresses of `to_remove` that are
/// members. Returns the changes, in that order.
pub fn update_members(state: &mut Engagement, height: u64, to_add: Vec<Member>, to_remove: Vec<String>) -> (r:
    MemberChangedHookMsg)
    requires
        old(state).wf(),
        old(state).solvent(),
        update_fits(
            old(state).ledger(),
            views(to_add@),
            views(to_remove@),
            old(state).distribution.shares_per_point,
            height,
        ),
    ensures
        final(state).wf(),
        final(state).solvent(),
        final(state).holds(
            ledger_updated(
                old(state).ledger(),
                views(to_add@),
                views(to_remove@),
                old(state).distribution.shares_per_point,
                height,
            ),
        ),
        views(r.diffs@) == ledger_updated(
            old(state).ledger(),
            views(to_add@),
            views(to_remove@),
            old(state).distribution.shares_per_point,
            height,
        ).diffs,
        final(state).distribution == old(state).distribution,
        final(state).same_registries(old(state)),
{
    let ghost l0 = state.ledger();
    let ghost adds = views(to_add@);
    let ghost removes = views(to_remove@);
    let ppw = state.distribution.shares_per_point;
    let mut diffs: Vec<MemberDiff> = Vec::new();
    proof {
        assert(adds.take(0) =~= Seq::<MemberView>::empty());
        assert(views(diffs@) =~= Seq::<crate::types::DiffView>::empty());
    }
    let mut i: usize = 0;
    while i < to_add.len()
        invariant
            i <= to_add@.len(),
            adds == views(to_add@),
            adds_fit(l0, adds, ppw, height),
            state.wf(),
            state.solvent(),
            state.distribution == old(state).distribution,
            ppw == state.distribution.shares_per_point,
            state.same_registries(old(state)),
            state.holds(ledger_after_adds(l0, adds.take(i as int), ppw, height)),
            views(diffs@) == ledger_after_adds(l0, adds.take(i as int), ppw, height).diffs,
        decreases to_add@.len() - i,
    {
        let ghost at = ledger_after_adds(l0, adds.take(i as int), ppw, height);
        let add = &to_add[i];
        proof {
            assert(adds[i as int] == add@);
            assert(adds.take(i + 1).drop_last() =~= adds.take(i as int));
            assert(adds.take(i + 1).last() == add@);
            assert(ledger_set_fits(at, add.addr@, Some(add.points), ppw, height));
            lemma_set_keeps_solvent(at, add.addr@, Some(add.points), ppw, height);
        }
        let ghost before = *state;
        let old = state.members.set(&add.addr, Some(add.points), height);
        let diff: i128 = add.points as i128 - (match old {
            Some(p) => p as i128,
            None => 0i128,
        });
        apply_points_correction(state, &add.addr, ppw, diff);
        proof {
            lemma_step_keeps_balanced(&before, state, add.addr@, Some(add.points), height);
        }
        let d = MemberDiff::new(add.addr.clone(), old, Some(add.points));
        proof {
            crate::types::lemma_views_push(diffs@, d);
        }
        diffs.push(d);
        i = i + 1;
    }
    let ghost l1 = ledger_after_adds(l0, adds, ppw, height);
    proof {
        assert(adds.take(adds.len() as int) =~= adds);
        assert(removes.take(0) =~= Seq::<Seq<char>>::empty());
    }
    let mut j: usize = 0;
    while j < to_remove.len()
        invariant
            j <= to_remove@.len(),
            removes == views(to_remove@),
            removes_fit(l1, removes, ppw, height),
            state.wf(),
            state.solvent(),
            state.distribution == old(state).distribution,
            ppw == state.distribution.shares_per_point,
            state.same_registries(old(state)),
            state.holds(ledger_after_removes(l1, removes.take(j as int), ppw, height)),
            views(diffs@) == ledger_after_removes(l1, removes.take(j as int), ppw, height).diffs,
        decreases to_remove@.len() - j,
    {
        let ghost at = ledger_after_removes(l1, removes.take(j as int), ppw, height);
        let remove = &to_remove[j];
        proof {
            assert(removes[j as int] == remove@);
            assert(removes.take(j + 1).drop_last() =~= removes.take(j as int));
            assert(removes.take(j + 1).last() == remove@);
        }
        match state.members.may_load(remove) {
            Some(points) => {
                proof {
                    assert(ledger_set_fits(at, remove@, None, ppw, height));
                    lemma_set_keeps_solvent(at, remove@, None, ppw, height);
                }
                let ghost before = *state;
                state.members.set(remove, None, height);
                apply_points_correction(state, remove, ppw, -(points as i128));
                proof {
                    lemma_step_keeps_balanced(&before, state, remove@, None, height);
                }
                let d = MemberDiff::new(remove.clone(), Some(points), None);
                proof {
                    crate::types::lemma_views_push(diffs@, d);
                }
                diffs.push(d);
            },
            None => {},
        }
        j = j + 1;
    }
    proof {
        assert(removes.take(removes.len() as int) =~= removes);
    }
    MemberChangedHookMsg { diffs }
}

/// The ledger after the one member `m` was added or its points replaced is
/// the ledger of an update that adds `m` and removes nobody.
pub proof fn lemma_single_add(l: Ledger, m: MemberView, spp: u128, height: u64)
    ensures
        ledger_updated(l, seq![m], Seq::empty(), spp, height) == ledger_add(l, m, spp, height),
        ledger_set_fits(l, m.addr, Some(m.points), spp, height) ==> update_fits(
            l,
            seq![m],
            Seq::empty(),
            spp,
            height,
        ),
{
    let adds = seq![m];
    assert(adds.drop_last() =~= Seq::<MemberView>::empty());
    assert(adds.last() == m);
    assert(ledger_after_adds(l, adds.drop_last(), spp, height) == l);
    assert(ledger_after_adds(l, adds, spp, height) == ledger_add(l, m, spp, height));
    if ledger_set_fits(l, m.addr, Some(m.points), spp, height) {
        assert forall|i: int| 0 <= i < adds.len() implies ledger_set_fits(
            #[trigger] ledger_after_adds(l, adds.take(i), spp, height),
            adds[i].addr,
            Some(adds[i].points),
            spp,
            height,
        ) by {
            assert(adds.take(0) =~= Seq::<MemberView>::empty());
        }
    }
}

/// What an update of the members reports.
pub open spec fn update_members_response(
    added: nat,
    removed: nat,
    sender: Seq<char>,
    hooks: Seq<Seq<char>>,
    diffs: Seq<DiffView>,
) -> ResponseView {
    ResponseView {
        attributes: seq![
            attr_view("action"@, "update_members"@),
            attr_view("added"@, decimal_text(added)),
            attr_view("removed"@, decimal_text(removed)),
            attr_view("sender"@, sender),
        ],
        messages: hook_msgs(hooks, diffs),
        events: Seq::empty(),
    }
}

/// The states and inputs on which `execute_update_members` may be called.
pub open spec fn execute_update_members_requires(
    state: &Engagement,
    env: &Env,
    info: &MessageInfo,
    add: Vec<Member>,
    remove: Vec<String>,
) -> bool {
    &&& state.wf()
    &&& state.solvent()
    &&& state.admin@ == Some(info.sender@) ==> update_fits(
        state.ledger(),
        views(add@),
        views(remove@),
        state.distribution.shares_per_point,
        env.block.height,
    )
}

/// What `execute_update_members` returns and how it leaves the state `post` that it found as `pre`.
pub open spec fn execute_update_members_ensures(
    pre: &Engagement,
    env: &Env,
    info: &MessageInfo,
    add: Vec<Member>,
    remove: Vec<String>,
    post: &Engagement,
    r: Result<Response, ContractError>,
) -> bool {
    &&& post.wf()
    &&& post.solvent()
    &&& r.is_ok() <==> pre.admin@ == Some(info.sender@)
    &&& r.is_err() ==> r == Err::<Response, ContractError>(ContractError::NotAdmin) && *post == *pre
    &&& r.is_ok() ==> {
        let l = ledger_updated(
            pre.ledger(),
            views(add@),
            views(remove@),
            pre.distribution.shares_per_point,
            env.block.height,
        );
        &&& post.holds(l)
        &&& post.distribution == pre.distribution
        &&& post.same_registries(pre)
        &&& r.unwrap()@ == update_members_response(
            add@.len(),
            remove@.len(),
            info.sender@,
            pre.hooks@,
            l.diffs,
        )
    }
}

/// Updates the members at the admin's word and tells every hook of the changes.
pub fn execute_update_members(
    state: &mut Engagement,
    env: &Env,
    info: &MessageInfo,
    add: Vec<Member>,
    remove: Vec<String>,
) -> (r: Result<Response, ContractError>)
    requires
        execute_update_members_requires(old(state), env, info, add, remove),
    ensures
        execute_update_members_ensures(old(state), env, info, add, remove, final(state), r),
{
    if !state.admin.is_admin(&info.sender) {
        return Err(ContractError::NotAdmin);
    }
    let mut res = Response::new();
    res.add_attribute_str("action", "update_members");
    res.add_attribute("added", number_text(add.len() as u128));
    res.add_attribute("removed", number_text(remove.len() as u128));
    res.add_attribute("sender", info.sender.clone());
    let diff = update_members(state, env.block.height, add, remove);
    res.add_messages(state.hooks.prepare_hooks(&diff.diffs));
    proof {
        let l = ledger_updated(
            old(state).ledger(),
            views(add@),
            views(remove@),
            old(state).distribution.shares_per_point,
            env.block.height,
        );
        let want = update_members_response(add@.len(), remove@.len(), info.sender@, old(state).hooks@, l.diffs);
        assert(res@.attributes =~= want.attributes);
        assert(res@.messages =~= want.messages);
    }
    Ok(res)
}

/// What adding points reports.
pub open spec fn add_points_response(
    addr: Seq<char>,
    points: u64,
    hooks: Seq<Seq<char>>,
    diffs: Seq<DiffView>,
) -> ResponseView {
    ResponseView {
        attributes: seq![
            attr_view("action"@, "add_points"@),
            attr_view("to_member"@, addr),
            attr_view("amount"@, decimal_text(points as nat)),
        ],
        messages: hook_msgs(hooks, diffs),
        events: Seq::empty(),
    }
}

/// The member that `addr` is after `points` were added to what it holds.
pub open spec fn with_added_points(state: &Engagement, addr: Seq<char>, points: u64) -> MemberView {
    MemberView {
        addr,
        points: (points_or_zero(lookup(state.members@.points, addr)) + points) as u64,
        start_height: None,
    }
}

/// The states and inputs on which `execute_add_points` may be called.
pub open spec fn execute_add_points_requires(
    state: &Engagement,
    env: &Env,
    info: &MessageInfo,
    addr: String,
    points: u64,
) -> bool {
    &&& state.wf()
    &&& state.solvent()
    &&& state.admin@ == Some(info.sender@) ==> {
        &&& points_or_zero(lookup(state.members@.points, addr@)) + points <= u64::MAX
        &&& ledger_set_fits(
            state.ledger(),
            addr@,
            Some(with_added_points(state, addr@, points).points),
            state.distribution.shares_per_point,
            env.block.height,
        )
    }
}

/// What `execute_add_points` returns and how it leaves the state `post` that it found as `pre`.
pub open spec fn execute_add_points_ensures(
    pre: &Engagement,
    env: &Env,
    info: &MessageInfo,
    addr: String,
    points: u64,
    post: &Engagement,
    r: Result<Response, ContractError>,
) -> bool {
    &&& post.wf()
    &&& post.solvent()
    &&& r.is_ok() <==> pre.admin@ == Some(info.sender@)
    &&& r.is_err() ==> r == Err::<Response, ContractError>(ContractError::NotAdmin) && *post == *pre
    &&& r.is_ok() ==> {
        let l = ledger_add(
            pre.ledger(),
            with_added_points(pre, addr@, points),
            pre.distribution.shares_per_point,
            env.block.height,
        );
        &&& post.holds(l)
        &&& post.distribution == pre.distribution
        &&& post.same_registries(pre)
        &&& r.unwrap()@ == add_points_response(addr@, points, pre.hooks@, l.diffs)
    }
}

/// Adds `points` to the points of `addr`, which becomes a member if it is
/// none, at the admin's word, and tells every hook.
pub fn execute_add_points(state: &mut Engagement, env: &Env, info: &MessageInfo, addr: String, points: u64) -> (r:
    Result<Response, ContractError>)
    requires
        execute_add_points_requires(old(state), env, info, addr, points),
    ensures
        execute_add_points_ensures(old(state), env, info, addr, points, final(state), r),
{
    if !state.admin.is_admin(&info.sender) {
        return Err(ContractError::NotAdmin);
    }
    let mut res = Response::new();
    res.add_attribute_str("action", "add_points");
    res.add_attribute("to_member", addr.clone());
    res.add_attribute("amount", number_text(points as u128));
    let old_points = state.members.may_load(&addr);
    let new_points: u64 = (match old_points {
        Some(p) => p,
        None => 0,
    }) + points;
    let add = Member { addr, points: new_points, start_height: None };
    let mut list: Vec<Member> = Vec::new();
    list.push(add);
    let none: Vec<String> = Vec::new();
    proof {
        assert(views(list@) =~= seq![with_added_points(old(state), addr@, points)]);
        assert(views(none@) =~= Seq::<Seq<char>>::empty());
        lemma_single_add(
            state.ledger(),
            with_added_points(old(state), addr@, points),
            state.distribution.shares_per_point,
            env.block.height,
        );
    }
    let diff = update_members(state, env.block.height, list, none);
    res.add_messages(state.hooks.prepare_hooks(&diff.diffs));
    proof {
        let l = ledger_add(
            old(state).ledger(),
            with_added_points(old(state), addr@, points),
            old(state).distribution.shares_per_point,
            env.block.height,
        );
        let want = add_points_response(addr@, points, old(state).hooks@, l.diffs);
        assert(res@.attributes =~= want.attributes);
        assert(res@.messages =~= want.messages);
    }
    Ok(res)
}

/// What a trusted edit of one member reports.
pub open spec fn sudo_add_member_response(m: MemberView, hooks: Seq<Seq<char>>, diffs: Seq<DiffView>) -> ResponseView {
    ResponseView {
        attributes: seq![
            attr_view("action"@, "sudo_add_member"@),
            attr_view("addr"@, m.addr),
            attr_view("points"@, decimal_text(m.points as nat)),
        ],
        messages: hook_msgs(hooks, diffs),
        events: Seq::empty(),
    }
}

/// The states and inputs on which `sudo_add_member` may be called.
pub open spec fn sudo_add_member_requires(
    state: &Engagement,
    env: &Env,
    add: Member,
) -> bool {
    &&& state.wf()
    &&& state.solvent()
    &&& ledger_set_fits(
        state.ledger(),
        add.addr@,
        Some(add.points),
        state.distribution.shares_per_point,
        env.block.height,
    )
}

/// What `sudo_add_member` returns and how it leaves the state `post` that it found as `pre`.
pub open spec fn sudo_add_member_ensures(
    pre: &Engagement,
    env: &Env,
    add: Member,
    post: &Engagement,
    r: Result<Response, ContractError>,
) -> bool {
    &&& post.wf()
    &&& post.solvent()
    &&& r.is_ok()
    &&& ({
        let l = ledger_add(pre.ledger(), add@, pre.distribution.shares_per_point, env.block.height);
        &&& post.holds(l)
        &&& post.distribution == pre.distribution
        &&& post.same_registries(pre)
        &&& r.unwrap()@ == sudo_add_member_response(add@, pre.hooks@, l.diffs)
    })
}

/// Adds the member `add`, or replaces its points, at the host's word, and tells every hook.
pub fn sudo_add_member(state: &mut Engagement, env: &Env, add: Member) -> (r: Result<Response, ContractError>)
    requires
        sudo_add_member_requires(old(state), env, add),
    ensures
        sudo_add_member_ensures(old(state), env, add, final(state), r),
{
    let mut res = Response::new();
    res.add_attribute_str("action", "sudo_add_member");
    res.add_attribute("addr", add.addr.clone());
    res.add_attribute("points", number_text(add.points as u128));
    let ghost m = add@;
    let mut list: Vec<Member> = Vec::new();
    list.push(add);
    let none: Vec<String> = Vec::new();
    proof {
        assert(views(list@) =~= seq![m]);
        assert(views(none@) =~= Seq::<Seq<char>>::empty());
        lemma_single_add(state.ledger(), m, state.distribution.shares_per_point, env.block.height);
    }
    let diff = update_members(state, env.block.height, list, none);
    res.add_messages(state.hooks.prepare_hooks(&diff.diffs));
    proof {
        let l = ledger_add(old(state).ledger(), m, old(state).distribution.shares_per_point, env.block.height);
        let want = sudo_add_member_response(m, old(state).hooks@, l.diffs);
        assert(res@.attributes =~= want.attributes);
        assert(res@.messages =~= want.messages);
    }
    Ok(res)
}

/// What registering or removing a hook or a slasher reports.
pub open spec fn registry_response(action: Seq<char>, what: Seq<char>, addr: Seq<char>, sender: Seq<char>) -> ResponseView {
    ResponseView {
        attributes: seq![attr_view("action"@, action), attr_view(what, addr), attr_view("sender"@, sender)],
        ..empty_response()
    }
}

fn registry_reply(action: &str, what: &str, addr: String, sender: &String) -> (res: Response)
    ensures
        res@ == registry_response(action@, what@, addr@, sender@),
{
    let mut res = Response::new();
    res.add_attribute_str("action", action);
    res.add_attribute(what, addr);
    res.add_attribute("sender", sender.clone());
    assert(res@.attributes =~= registry_response(action@, what@, addr@, sender@).attributes);
    res
}

/// What `execute_add_hook` returns and how it leaves the state `post` that it found as `pre`.
pub open spec fn execute_add_hook_ensures(
    pre: &Engagement,
    info: &MessageInfo,
    hook: String,
    post: &Engagement,
    r: Result<Response, ContractError>,
) -> bool {
    &&& pre.wf() ==> post.wf()
    &&& pre.solvent() ==> post.solvent()
    &&& post.members == pre.members
    &&& post.adjustments == pre.adjustments
    &&& post.distribution == pre.distribution
    &&& post.admin == pre.admin
    &&& post.slashers == pre.slashers
    &&& post.preauth_slashing == pre.preauth_slashing
    &&& post.halflife == pre.halflife
    &&& match r {
        Ok(res) => {
            &&& pre.admin@ == Some(info.sender@) || pre.preauth_hooks.count > 0
            &&& !pre.hooks@.contains(hook@)
            &&& post.hooks@ == pre.hooks@.push(hook@)
            &&& post.preauth_hooks.count == (if pre.admin@ == Some(info.sender@) {
                pre.preauth_hooks.count as int
            } else {
                pre.preauth_hooks.count - 1
            })
            &&& res@ == registry_response("add_hook"@, "hook"@, hook@, info.sender@)
        },
        Err(e) => {
            &&& *post == *pre
            &&& if pre.admin@ != Some(info.sender@) && pre.preauth_hooks.count == 0 {
                e == ContractError::NoPreauth
            } else {
                &&& e == ContractError::HookAlreadyRegistered
                &&& pre.hooks@.contains(hook@)
            }
        },
    }
}

/// Registers `hook`. The admin may always do so; anyone else uses up one pre-authorisation.
pub fn execute_add_hook(state: &mut Engagement, info: &MessageInfo, hook: String) -> (r: Result<
    Response,
    ContractError,
>)
    ensures
        execute_add_hook_ensures(old(state), info, hook, final(state), r),
{
    let left = state.preauth_hooks.get_auth();
    if !state.admin.is_admin(&info.sender) {
        match state.preauth_hooks.use_auth() {
            Ok(_) => {},
            Err(e) => {
                return Err(e);
            },
        }
    }
    match state.hooks.add_hook(hook.clone()) {
        Ok(_) => {},
        Err(e) => {
            // a registration that fails uses up no pre-authorisation
            state.preauth_hooks.set_auth(left);
            return Err(e);
        },
    }
    Ok(registry_reply("add_hook", "hook", hook, &info.sender))
}

/// What `execute_remove_hook` returns and how it leaves the state `post` that it found as `pre`.
pub open spec fn execute_remove_hook_ensures(
    pre: &Engagement,
    info: &MessageInfo,
    hook: String,
    post: &Engagement,
    r: Result<Response, ContractError>,
) -> bool {
    &&& pre.wf() ==> post.wf()
    &&& pre.solvent() ==> post.solvent()
    &&& post.members == pre.members
    &&& post.adjustments == pre.adjustments
    &&& post.distribution == pre.distribution
    &&& post.admin == pre.admin
    &&& post.slashers == pre.slashers
    &&& post.preauth_slashing == pre.preauth_slashing
    &&& post.preauth_hooks == pre.preauth_hooks
    &&& post.halflife == pre.halflife
    &&& match r {
        Ok(res) => {
            &&& info.sender@ == hook@ || pre.admin@ == Some(info.sender@)
            &&& crate::controllers::unregistered(pre.hooks@, hook@) == Some(post.hooks@)
            &&& res@ == registry_response("remove_hook"@, "hook"@, hook@, info.sender@)
        },
        Err(e) => {
            &&& post.hooks == pre.hooks
            &&& if info.sender@ != hook@ && pre.admin@ != Some(info.sender@) {
                e.is_unauthorized("Hook address is not same as sender's or sender is not an admin"@)
            } else {
                e == ContractError::HookNotRegistered && !pre.hooks@.contains(hook@)
            }
        },
    }
}

/// Takes `hook` out. The admin may do so, and the hook itself.
pub fn execute_remove_hook(state: &mut Engagement, info: &MessageInfo, hook: String) -> (r: Result<
    Response,
    ContractError,
>)
    ensures
        execute_remove_hook_ensures(old(state), info, hook, final(state), r),
{
    if info.sender != hook && !state.admin.is_admin(&info.sender) {
        return Err(
            ContractError::Unauthorized(
                String::from_str("Hook address is not same as sender's or sender is not an admin"),
            ),
        );
    }
    match state.hooks.remove_hook(&hook) {
        Ok(_) => {},
        Err(e) => {
            return Err(e);
        },
    }
    Ok(registry_reply("remove_hook", "hook", hook, &info.sender))
}

/// What `execute_add_slasher` returns and how it leaves the state `post` that it found as `pre`.
pub open spec fn execute_add_slasher_ensures(
    pre: &Engagement,
    info: &MessageInfo,
    slasher: String,
    post: &Engagement,
    r: Result<Response, ContractError>,
) -> bool {
    &&& pre.wf() ==> post.wf()
    &&& pre.solvent() ==> post.solvent()
    &&& post.members == pre.members
    &&& post.adjustments == pre.adjustments
    &&& post.distribution == pre.distribution
    &&& post.admin == pre.admin
    &&& post.hooks == pre.hooks
    &&& post.preauth_hooks == pre.preauth_hooks
    &&& post.halflife == pre.halflife
    &&& match r {
        Ok(res) => {
            &&& pre.admin@ == Some(info.sender@) || pre.preauth_slashing.count > 0
            &&& !pre.slashers@.contains(slasher@)
            &&& post.slashers@ == pre.slashers@.push(slasher@)
            &&& post.preauth_slashing.count == (if pre.admin@ == Some(info.sender@) {
                pre.preauth_slashing.count as int
            } else {
                pre.preauth_slashing.count - 1
            })
            &&& res@ == registry_response("add_slasher"@, "slasher"@, slasher@, info.sender@)
        },
        Err(e) => {
            &&& *post == *pre
            &&& if pre.admin@ != Some(info.sender@) && pre.preauth_slashing.count == 0 {
                e == ContractError::NoPreauth
            } else {
                &&& e matches ContractError::SlasherAlreadyRegistered(a) && a@ == slasher@
                &&& pre.slashers@.contains(slasher@)
            }
        },
    }
}

/// Registers `slasher`. The admin may always do so; anyone else uses up one pre-authorisation.
pub fn execute_add_slasher(state: &mut Engagement, info: &MessageInfo, slasher: String) -> (r: Result<
    Response,
    ContractError,
>)
    ensures
        execute_add_slasher_ensures(old(state), info, slasher, final(state), r),
{
    let left = state.preauth_slashing.get_auth();
    if !state.admin.is_admin(&info.sender) {
        match state.preauth_slashing.use_auth() {
            Ok(_) => {},
            Err(e) => {
                return Err(e);
            },
        }
    }
    match state.slashers.add_slasher(slasher.clone()) {
        Ok(_) => {},
        Err(e) => {
            // a registration that fails uses up no pre-authorisation
            state.preauth_slashing.set_auth(left);
            return Err(e);
        },
    }
    Ok(registry_reply("add_slasher", "slasher", slasher, &info.sender))
}

/// What `execute_remove_slasher` returns and how it leaves the state `post` that it found as `pre`.
pub open spec fn execute_remove_slasher_ensures(
    pre: &Engagement,
    info: &MessageInfo,
    slasher: String,
    post: &Engagement,
    r: Result<Response, ContractError>,
) -> bool {
    &&& pre.wf() ==> post.wf()
    &&& pre.solvent() ==> post.solvent()
    &&& post.members == pre.members
    &&& post.adjustments == pre.adjustments
    &&& post.distribution == pre.distribution
    &&& post.admin == pre.admin
    &&& post.hooks == pre.hooks
    &&& post.preauth_slashing == pre.preauth_slashing
    &&& post.preauth_hooks == pre.preauth_hooks
    &&& post.halflife == pre.halflife
    &&& match r {
        Ok(res) => {
            &&& info.sender@ == slasher@ || pre.admin@ == Some(info.sender@)
            &&& crate::controllers::unregistered(pre.slashers@, slasher@) == Some(post.slashers@)
            &&& res@ == registry_response("remove_slasher"@, "slasher"@, slasher@, info.sender@)
        },
        Err(e) => {
            &&& post.slashers == pre.slashers
            &&& if info.sender@ != slasher@ && pre.admin@ != Some(info.sender@) {
                e.is_unauthorized("Only slasher might remove himself or sender is not an admin"@)
            } else {
                &&& e matches ContractError::SlasherNotRegistered(a) && a@ == slasher@
                &&& !pre.slashers@.contains(slasher@)
            }
        },
    }
}

/// Takes `slasher` out. The admin may do so, and the slasher itself.
pub fn execute_remove_slasher(state: &mut Engagement, info: &MessageInfo, slasher: String) -> (r: Result<
    Response,
    ContractError,
>)
    ensures
        execute_remove_slasher_ensures(old(state), info, slasher, final(state), r),
{
    if info.sender != slasher && !state.admin.is_admin(&info.sender) {
        return Err(
            ContractError::Unauthorized(
                String::from_str("Only slasher might remove himself or sender is not an admin"),
            ),
        );
    }
    match state.slashers.remove_slasher(&slasher) {
        Ok(_) => {},
        Err(e) => {
            return Err(e);
        },
    }
    Ok(registry_reply("remove_slasher", "slasher", slasher, &info.sender))
}

/// The tokens in the engine's balance that are not yet distributed.
pub open spec fn undistributed(state: &Engagement, balance: u128) -> int {
    balance - state.distribution.withdrawable_total
}

/// The shares that a distribution at the balance `balance` divides among the points.
pub open spec fn shares_to_divide(state: &Engagement, balance: u128) -> int {
    undistributed(state, balance) * SHARES_UNIT + state.distribution.shares_leftover
}

/// A distribution at the balance `balance` can be computed in 128 bits.
pub open spec fn distribute_fits(state: &Engagement, balance: u128) -> bool {
    &&& undistributed(state, balance) <= MAX_SHIFTABLE
    &&& shares_to_divide(state, balance) <= u128::MAX
    &&& state.distribution.shares_per_point + shares_to_divide(state, balance) / (state.members@.total)
        <= u128::MAX
    &&& state.distribution.distributed_total + undistributed(state, balance) <= u128::MAX
}

/// What a distribution reports.
pub open spec fn distribute_response(sender: Seq<char>, denom: Seq<char>, amount: nat) -> ResponseView {
    ResponseView {
        attributes: seq![
            attr_view("action"@, "distribute_rewards"@),
            attr_view("sender"@, sender),
            attr_view("denom"@, denom),
            attr_view("amount"@, decimal_text(amount)),
        ],
        ..empty_response()
    }
}

/// The sender that a distribution names: the one given, or else who sent the message.
pub open spec fn named_or(given: Option<String>, sender: Seq<char>) -> Seq<char> {
    match given {
        Some(s) => s@,
        None => sender,
    }
}

/// The states and inputs on which `execute_distribute_rewards` may be called.
pub open spec fn execute_distribute_rewards_requires(
    state: &Engagement,
    env: &Env,
    info: &MessageInfo,
    sender: Option<String>,
    balance: u128,
) -> bool {
    &&& state.wf()
    &&& state.solvent()
    &&& balance >= state.distribution.withdrawable_total
    &&& state.members@.total > 0 && undistributed(state, balance) > 0 ==> distribute_fits(
        state,
        balance,
    )
}

/// What `execute_distribute_rewards` returns and how it leaves the state `post` that it found as `pre`.
pub open spec fn execute_distribute_rewards_ensures(
    pre: &Engagement,
    env: &Env,
    info: &MessageInfo,
    sender: Option<String>,
    balance: u128,
    post: &Engagement,
    r: Result<Response, ContractError>,
) -> bool {
    &&& post.wf()
    &&& post.solvent()
    &&& post.members == pre.members
    &&& post.adjustments == pre.adjustments
    &&& post.same_registries(pre)
    &&& post.distribution.denom == pre.distribution.denom
    &&& post.distribution.distributed_total >= pre.distribution.distributed_total
    &&& pre.members@.total == 0 ==> r == Err::<Response, ContractError>(
        ContractError::NoMembersToDistributeTo,
    ) && *post == *pre
    &&& pre.members@.total > 0 && undistributed(pre, balance) == 0 ==> r.is_ok() && r.unwrap()@
    == empty_response() && *post == *pre
    &&& pre.members@.total > 0 && undistributed(pre, balance) > 0 ==> {
        let shares = shares_to_divide(pre, balance);
        let total = pre.members@.total;
        &&& r.is_ok()
        &&& r.unwrap()@ == distribute_response(
            named_or(sender, info.sender@),
            pre.distribution.denom@,
            undistributed(pre, balance) as nat,
        )
        &&& post.distribution.shares_per_point == pre.distribution.shares_per_point + shares
            / total
        &&& post.distribution.shares_leftover == shares % total
        &&& post.distribution.distributed_total == pre.distribution.distributed_total
            + undistributed(pre, balance)
        &&& post.distribution.withdrawable_total == balance
    }
}

/// Distributes what the balance `balance` of the engine holds beyond the
/// tokens that are withdrawable already: the new tokens, as shares and
/// together with the shares left over last time, are divided evenly among
/// all points.
pub fn execute_distribute_rewards(
    state: &mut Engagement,
    env: &Env,
    info: &MessageInfo,
    sender: Option<String>,
    balance: u128,
) -> (r: Result<Response, ContractError>)
    requires
        execute_distribute_rewards_requires(old(state), env, info, sender, balance),
    ensures
        execute_distribute_rewards_ensures(old(state), env, info, sender, balance, final(state), r),
{
    let total = state.members.total() as u128;
    if total == 0 {
        return Err(ContractError::NoMembersToDistributeTo);
    }
    let ghost named = named_or(sender, info.sender@);
    let from = match sender {
        Some(s) => s,
        None => info.sender.clone(),
    };
    let withdrawable = state.distribution.withdrawable_total;
    let amount = balance - withdrawable;
    if amount == 0 {
        return Ok(Response::new());
    }
    let leftover = state.distribution.shares_leftover as u128;
    let points = to_shares(amount) + leftover;
    let points_per_share = points / total;
    let ghost before = state.distribution.shares_per_point;
    state.distribution.shares_leftover = (points % total) as u64;
    state.distribution.shares_per_point = state.distribution.shares_per_point + points_per_share;
    state.distribution.distributed_total = state.distribution.distributed_total + amount;
    state.distribution.withdrawable_total = state.distribution.withdrawable_total + amount;
    proof {
        lemma_more_shares_keep_solvent(
            before,
            state.distribution.shares_per_point,
            state.members@.points,
            state.adjust(),
        );
        let pts = state.members@.points;
        let f = shares_measure(before, pts);
        let g = held_points_measure(pts);
        let h = shares_measure(state.distribution.shares_per_point, pts);
        let q = points_per_share as int;
        assert forall|i: int| 0 <= i < state.adjustments.entries@.len() implies h(
            #[trigger] state.adjustments.entries@[i].key@,
            state.adjustments.entries@[i].value,
        ) == f(state.adjustments.entries@[i].key@, state.adjustments.entries@[i].value) + q * g(
            state.adjustments.entries@[i].key@,
            state.adjustments.entries@[i].value,
        ) by {
            let p = points_or_zero(lookup(pts, state.adjustments.entries@[i].key@));
            assert((before + q) * p == before * p + q * p) by (nonlinear_arith);
        }
        state.adjustments.lemma_total_linear(f, g, h, q);
        let t = total as int;
        vstd::arithmetic::div_mod::lemma_fundamental_div_mod(points as int, t);
        let d = old(state).distribution.distributed_total as int;
        let a = amount as int;
        let u = SHARES_UNIT as int;
        assert((d + a) * u == d * u + a * u) by (nonlinear_arith);
        assert(q * t == t * q) by (nonlinear_arith);
    }
    let mut res = Response::new();
    res.add_attribute_str("action", "distribute_rewards");
    res.add_attribute("sender", from);
    res.add_attribute("denom", state.distribution.denom.clone());
    res.add_attribute("amount", number_text(amount));
    proof {
        let want = distribute_response(
            named,
            old(state).distribution.denom@,
            undistributed(old(state), balance) as nat,
        );
        assert(res@.attributes =~= want.attributes);
    }
    Ok(res)
}

/// The tokens that `owner` can withdraw, by the pool `distribution` and the
/// adjustment `adjustment`: what its points and its correction have earned,
/// less what it has withdrawn.
pub fn withdrawable_rewards(
    state: &Engagement,
    owner: &String,
    distribution: &Distribution,
    adjustment: &WithdrawAdjustment,
) -> (r: Coin)
    requires
        state.wf(),
        account_solvent(
            distribution.shares_per_point,
            points_or_zero(lookup(state.members@.points, owner@)),
            adjustment@,
        ),
        account_fits(
            distribution.shares_per_point,
            points_or_zero(lookup(state.members@.points, owner@)),
            adjustment@,
        ),
    ensures
        r.denom@ == distribution.denom@,
        r.amount == withdrawable_of(
            distribution.shares_per_point,
            points_or_zero(lookup(state.members@.points, owner@)),
            adjustment@,
        ),
{
    let ppw = distribution.shares_per_point;
    let points: u128 = match state.members.may_load(owner) {
        Some(p) => p as u128,
        None => 0,
    };
    proof {
        lemma_withdrawable(ppw, points as int, adjustment@);
    }
    let correction = adjustment.shares_correction;
    let withdrawn = adjustment.withdrawn_rewards;
    let shares = (ppw * points) as i128;
    let shares = shares + correction;
    let amount = to_tokens(shares as u128);
    let amount = amount - withdrawn;
    coin(amount, &distribution.denom)
}

/// What a withdrawal reports.
pub open spec fn withdraw_response(
    sender: Seq<char>,
    owner: Seq<char>,
    receiver: Seq<char>,
    reward: CoinView,
) -> ResponseView {
    ResponseView {
        attributes: seq![
            attr_view("action"@, "withdraw_rewards"@),
            attr_view("sender"@, sender),
            attr_view("owner"@, owner),
            attr_view("receiver"@, receiver),
            attr_view("reward"@, reward.denom),
            attr_view("amount"@, decimal_text(reward.amount as nat)),
        ],
        messages: seq![MsgView::Send { to_address: receiver, amount: reward }],
        events: Seq::empty(),
    }
}

/// The tokens that `owner` can withdraw in `state`.
pub open spec fn withdrawable_in(state: &Engagement, owner: Seq<char>) -> int {
    withdrawable_of(
        state.distribution.shares_per_point,
        points_or_zero(lookup(state.members@.points, owner)),
        state.adjust()[owner],
    )
}

/// What `owner` has earned can be computed in 128 bits with a sign.
pub open spec fn withdraw_fits(state: &Engagement, owner: Seq<char>) -> bool {
    account_fits(
        state.distribution.shares_per_point,
        points_or_zero(lookup(state.members@.points, owner)),
        state.adjust()[owner],
    )
}

/// The sender may withdraw for `owner`: it is the owner or the one that the owner delegated to.
pub open spec fn may_withdraw(state: &Engagement, sender: Seq<char>, owner: Seq<char>) -> bool {
    sender == owner || sender == state.adjust()[owner].delegated
}

/// The states and inputs on which `execute_withdraw_rewards` may be called.
pub open spec fn execute_withdraw_rewards_requires(
    state: &Engagement,
    info: &MessageInfo,
    owner: Option<String>,
    receiver: Option<String>,
) -> bool {
    &&& state.wf()
    &&& state.solvent()
    &&& ({
        let o = named_or(owner, info.sender@);
        state.adjust().contains_key(o) && may_withdraw(state, info.sender@, o) ==> withdraw_fits(
            state,
            o,
        )
    })
}

/// What `execute_withdraw_rewards` returns and how it leaves the state `post` that it found as `pre`.
pub open spec fn execute_withdraw_rewards_ensures(
    pre: &Engagement,
    info: &MessageInfo,
    owner: Option<String>,
    receiver: Option<String>,
    post: &Engagement,
    r: Result<Response, ContractError>,
) -> bool {
    &&& post.wf()
    &&& post.solvent()
    &&& post.members == pre.members
    &&& post.same_registries(pre)
    &&& post.distribution.denom == pre.distribution.denom
    &&& post.distribution.shares_per_point == pre.distribution.shares_per_point
    &&& post.distribution.shares_leftover == pre.distribution.shares_leftover
    &&& post.distribution.distributed_total == pre.distribution.distributed_total
    &&& ({
        let o = named_or(owner, info.sender@);
        let to = named_or(receiver, info.sender@);
        if !pre.adjust().contains_key(o) {
            r == Err::<Response, ContractError>(ContractError::NotFound) && *post == *pre
        } else if !may_withdraw(pre, info.sender@, o) {
            &&& r.is_err()
            &&& r.unwrap_err().is_unauthorized("Sender is neither owner or delegated"@)
            &&& *post == *pre
        } else if withdrawable_in(pre, o) == 0 {
            r.is_ok() && r.unwrap()@ == empty_response() && *post == *pre
        } else {
            let reward = withdrawable_in(pre, o);
            let adj = pre.adjust()[o];
            &&& r.is_ok()
            &&& r.unwrap()@ == withdraw_response(
                info.sender@,
                o,
                to,
                CoinView { denom: pre.distribution.denom@, amount: reward as u128 },
            )
            &&& post.adjust() == pre.adjust().insert(
                o,
                AdjustmentView { withdrawn_rewards: (adj.withdrawn_rewards + reward) as u128, ..adj },
            )
            &&& post.distribution.withdrawable_total == pre.distribution.withdrawable_total
                - reward
        }
    })
}

/// Pays out what `owner` (the sender, where none is given) can withdraw, to
/// `receiver` (the sender, where none is given). Only the owner and the one
/// it delegated to may do so.
pub fn execute_withdraw_rewards(
    state: &mut Engagement,
    info: &MessageInfo,
    owner: Option<String>,
    receiver: Option<String>,
) -> (r: Result<Response, ContractError>)
    requires
        execute_withdraw_rewards_requires(old(state), info, owner, receiver),
    ensures
        execute_withdraw_rewards_ensures(old(state), info, owner, receiver, final(state), r),
{
    let ghost owner_name = named_or(owner, info.sender@);
    let ghost receiver_name = named_or(receiver, info.sender@);
    let owner = match owner {
        Some(o) => o,
        None => info.sender.clone(),
    };
    assert(owner@ == owner_name);
    let adjustment = match state.adjustments.get(&owner) {
        Some(a) => a.duplicate(),
        None => {
            return Err(ContractError::NotFound);
        },
    };
    assert(adjustment@ == state.adjust()[owner@]);
    if !(info.sender == owner || info.sender == adjustment.delegated) {
        return Err(ContractError::Unauthorized(String::from_str("Sender is neither owner or delegated")));
    }
    let ghost points = points_or_zero(lookup(state.members@.points, owner@));
    proof {
        assert(state.adjust().contains_key(owner@));
        lemma_withdrawable(state.distribution.shares_per_point, points, adjustment@);
        crate::engagement::state::lemma_withdrawable_within_total(state);
    }
    let reward = withdrawable_rewards(state, &owner, &state.distribution, &adjustment);
    let receiver = match receiver {
        Some(x) => x,
        None => info.sender.clone(),
    };
    assert(receiver@ == receiver_name);
    if reward.amount == 0 {
        return Ok(Response::new());
    }
    let next = WithdrawAdjustment {
        shares_correction: adjustment.shares_correction,
        withdrawn_rewards: adjustment.withdrawn_rewards + reward.amount,
        delegated: adjustment.delegated,
    };
    let ghost next_view = next@;
    state.adjustments.insert(owner.clone(), next);
    state.distribution.withdrawable_total = state.distribution.withdrawable_total - reward.amount;
    proof {
        let adj = old(state).adjust()[owner@];
        assert(state.adjust() =~= old(state).adjust().insert(owner@, next_view));
        assert forall|a: Seq<char>| #[trigger] state.adjust().contains_key(a) implies account_solvent(
            state.distribution.shares_per_point,
            points_or_zero(lookup(state.members@.points, a)),
            state.adjust()[a],
        ) by {
            if a != owner@ {
                assert(old(state).adjust().contains_key(a));
            }
        }
    }
    let mut res = Response::new();
    res.add_attribute_str("action", "withdraw_rewards");
    res.add_attribute("sender", info.sender.clone());
    res.add_attribute("owner", owner);
    res.add_attribute("receiver", receiver.clone());
    res.add_attribute("reward", reward.denom.clone());
    res.add_attribute("amount", number_text(reward.amount));
    res.add_message(Msg::Send { to_address: receiver, amount: reward });
    proof {
        let want = withdraw_response(
            info.sender@,
            owner@,
            receiver@,
            CoinView { denom: old(state).distribution.denom@, amount: reward.amount },
        );
        assert(res@.attributes =~= want.attributes);
        assert(res@.messages =~= want.messages);
    }
    Ok(res)
}

/// What a delegation reports.
pub open spec fn delegate_response(sender: Seq<char>, delegated: Seq<char>) -> ResponseView {
    ResponseView {
        attributes: seq![
            attr_view("action"@, "delegate_withdrawal"@),
            attr_view("sender"@, sender),
            attr_view("delegated"@, delegated),
        ],
        ..empty_response()
    }
}

/// The states and inputs on which `execute_delegate_withdrawal` may be called.
pub open spec fn execute_delegate_withdrawal_requires(
    state: &Engagement,
    info: &MessageInfo,
    delegated: String,
) -> bool {
    &&& state.wf()
    &&& state.solvent()
}

/// What `execute_delegate_withdrawal` returns and how it leaves the state `post` that it found as `pre`.
pub open spec fn execute_delegate_withdrawal_ensures(
    pre: &Engagement,
    info: &MessageInfo,
    delegated: String,
    post: &Engagement,
    r: Result<Response, ContractError>,
) -> bool {
    &&& post.wf()
    &&& post.solvent()
    &&& post.members == pre.members
    &&& post.distribution == pre.distribution
    &&& post.same_registries(pre)
    &&& post.adjust() == delegated_to(pre.adjust(), info.sender@, delegated@)
    &&& r.is_ok()
    &&& r.unwrap()@ == delegate_response(info.sender@, delegated@)
}

/// Lets `delegated` withdraw in the sender's place from now on, and no longer
/// whom the sender had named before.
pub fn execute_delegate_withdrawal(state: &mut Engagement, info: &MessageInfo, delegated: String) -> (r: Result<
    Response,
    ContractError,
>)
    requires
        execute_delegate_withdrawal_requires(old(state), info, delegated),
    ensures
        execute_delegate_withdrawal_ensures(old(state), info, delegated, final(state), r),
{
    let next = match state.adjustments.get(&info.sender) {
        Some(a) => WithdrawAdjustment {
            shares_correction: a.shares_correction,
            withdrawn_rewards: a.withdrawn_rewards,
            delegated: delegated.clone(),
        },
        None => WithdrawAdjustment { shares_correction: 0, withdrawn_rewards: 0, delegated: delegated.clone() },
    };
    state.adjustments.insert(info.sender.clone(), next);
    proof {
        assert(state.adjust() =~= delegated_to(old(state).adjust(), info.sender@, delegated@));
        let spp = state.distribution.shares_per_point;
        let pts = state.members@.points;
        assert(spp * 0 == 0) by (nonlinear_arith);
        if !old(state).adjustments.has(info.sender@) {
            assert(!old(state).adjustments@.contains_key(info.sender@));
            assert(!pts.contains_key(info.sender@));
        } else {
            assert(old(state).adjustments@.contains_key(info.sender@));
        }
        assert(state.adjustments.total(shares_measure(spp, pts)) == old(state).adjustments.total(
            shares_measure(spp, pts),
        ));
        assert(state.adjustments.total(withdrawn_measure()) == old(state).adjustments.total(withdrawn_measure()));
        assert(state.adjustments.total(held_points_measure(pts)) == old(state).adjustments.total(
            held_points_measure(pts),
        ));
        assert forall|a: Seq<char>| #[trigger] state.adjust().contains_key(a) implies account_solvent(
            spp,
            points_or_zero(lookup(state.members@.points, a)),
            state.adjust()[a],
        ) by {
            let p = points_or_zero(lookup(state.members@.points, a));
            if a == info.sender@ {
                if old(state).adjust().contains_key(a) {
                    assert(account_solvent(spp, p, old(state).adjust()[a]));
                } else {
                    assert(spp * p >= 0) by (nonlinear_arith)
                        requires
                            spp >= 0,
                            p >= 0,
                    ;
                }
            } else {
                assert(old(state).adjust().contains_key(a));
            }
        }
    }
    let mut res = Response::new();
    res.add_attribute_str("action", "delegate_withdrawal");
    res.add_attribute("sender", info.sender.clone());
    res.add_attribute("delegated", delegated);
    assert(res@.attributes =~= delegate_response(info.sender@, delegated@).attributes);
    Ok(res)
}

/// What a slash reports.
pub open spec fn slash_response(addr: Seq<char>, sender: Seq<char>) -> ResponseView {
    ResponseView {
        attributes: seq![
            attr_view("action"@, "slash"@),
            attr_view("addr"@, addr),
            attr_view("sender"@, sender),
        ],
        ..empty_response()
    }
}

/// The points that are left of `points` after the portion `portion` was slashed.
pub open spec fn slashed_points(points: u64, portion: Decimal) -> int {
    points - portion_of(points as u128, portion)
}

/// The states and inputs on which `execute_slash` may be called.
pub open spec fn execute_slash_requires(
    state: &Engagement,
    env: &Env,
    info: &MessageInfo,
    addr: String,
    portion: Decimal,
) -> bool {
    &&& state.wf()
    &&& state.solvent()
    &&& state.slashers@.contains(info.sender@) && state.members@.points.contains_key(addr@)
        && portion.atomics <= DECIMAL_FRACTIONAL ==> correction_fits(
        state.adjust(),
        addr@,
        state.distribution.shares_per_point,
        -portion_of(state.members@.points[addr@] as u128, portion),
    )
}

/// What `execute_slash` returns and how it leaves the state `post` that it found as `pre`.
pub open spec fn execute_slash_ensures(
    pre: &Engagement,
    env: &Env,
    info: &MessageInfo,
    addr: String,
    portion: Decimal,
    post: &Engagement,
    r: Result<Response, ContractError>,
) -> bool {
    &&& post.wf()
    &&& post.solvent()
    &&& post.distribution == pre.distribution
    &&& post.same_registries(pre)
    &&& if !pre.slashers@.contains(info.sender@) {
        &&& r.is_err()
        &&& r.unwrap_err().is_unauthorized("Sender is not on slashers list"@)
        &&& *post == *pre
    } else if !pre.members@.points.contains_key(addr@) {
        r.is_ok() && r.unwrap()@ == empty_response() && *post == *pre
    } else if portion.atomics > DECIMAL_FRACTIONAL {
        r == Err::<Response, ContractError>(ContractError::InvalidPortion) && *post == *pre
    } else {
        let points = pre.members@.points[addr@];
        &&& r.is_ok()
        &&& r.unwrap()@ == slash_response(addr@, info.sender@)
        &&& 0 <= slashed_points(points, portion) <= points
        &&& post.holds(
            ledger_set(
                pre.ledger(),
                addr@,
                Some(slashed_points(points, portion) as u64),
                pre.distribution.shares_per_point,
                env.block.height,
            ),
        )
    }
}

/// Takes the portion `portion` of the points of `addr`, rounded down. Only a
/// slasher may do so. Nothing happens where `addr` is no member.
pub fn execute_slash(state: &mut Engagement, env: &Env, info: &MessageInfo, addr: String, portion: Decimal) -> (r:
    Result<Response, ContractError>)
    requires
        execute_slash_requires(old(state), env, info, addr, portion),
    ensures
        execute_slash_ensures(old(state), env, info, addr, portion, final(state), r),
{
    if !state.slashers.is_slasher(&info.sender) {
        return Err(ContractError::Unauthorized(String::from_str("Sender is not on slashers list")));
    }
    let old_points = match state.members.may_load(&addr) {
        Some(p) => p,
        None => {
            return Ok(Response::new());
        },
    };
    match validate_portion(portion) {
        Ok(_) => {},
        Err(e) => {
            return Err(e);
        },
    }
    let ppw = state.distribution.shares_per_point;
    let slash = share_of(old_points as u128, portion);
    let new_points: u64 = (old_points as u128 - slash) as u64;
    let diff: i128 = -(slash as i128);
    proof {
        lemma_set_keeps_solvent(state.ledger(), addr@, Some(new_points), ppw, env.block.height);
    }
    state.members.set(&addr, Some(new_points), env.block.height);
    apply_points_correction(state, &addr, ppw, diff);
    proof {
        lemma_step_keeps_balanced(old(state), state, addr@, Some(new_points), env.block.height);
    }
    let mut res = Response::new();
    res.add_attribute_str("action", "slash");
    res.add_attribute("addr", addr);
    res.add_attribute("sender", info.sender.clone());
    assert(res@.attributes =~= slash_response(addr@, info.sender@).attributes);
    Ok(res)
}

/// The points that a member with `points` points keeps at a halving.
pub fn points_reduction(points: u64) -> (r: u64)
    ensures
        r == points - points / 2,
        points > 1 ==> r == halved(points),
{
    points - (points / 2)
}

/// The points of `a` are halved: it is among `done`, a member, and has more than one point.
pub open spec fn halving_applies(points: Map<Seq<char>, u64>, done: Set<Seq<char>>, a: Seq<char>) -> bool {
    done.contains(a) && points.contains_key(a) && points[a] > 1
}

/// The points after the members among `done` were halved.
pub open spec fn halved_points(points: Map<Seq<char>, u64>, done: Set<Seq<char>>) -> Map<Seq<char>, u64> {
    Map::new(
        |a: Seq<char>| points.contains_key(a),
        |a: Seq<char>|
            if done.contains(a) {
                halved(points[a])
            } else {
                points[a]
            },
    )
}

/// The adjustments after the members among `done` were halved: the
/// correction of each takes up the points that it lost.
pub open spec fn halved_adjust(
    adjust: Adjustments,
    points: Map<Seq<char>, u64>,
    spp: u128,
    done: Set<Seq<char>>,
) -> Adjustments {
    Map::new(
        |a: Seq<char>| adjust.contains_key(a) || halving_applies(points, done, a),
        |a: Seq<char>|
            if halving_applies(points, done, a) {
                corrected(adjust, a, spp, -((points[a] / 2) as int))[a]
            } else {
                adjust[a]
            },
    )
}

/// The record of changes after the members among `done` were halved at `height`.
pub open spec fn halved_log(log: ChangeLog, points: Map<Seq<char>, u64>, height: u64, done: Set<Seq<char>>) -> ChangeLog {
    Map::new(
        |k: (Seq<char>, u64)| log.contains_key(k) || (k.1 == height && halving_applies(points, done, k.0)),
        |k: (Seq<char>, u64)|
            if log.contains_key(k) {
                log[k]
            } else {
                Some(points[k.0])
            },
    )
}

/// The correction of every member that a halving touches can be computed.
pub open spec fn halving_fits(adjust: Adjustments, points: Map<Seq<char>, u64>, spp: u128) -> bool {
    forall|a: Seq<char>|
        points.contains_key(a) && points[a] > 1 ==> #[trigger] correction_fits(
            adjust,
            a,
            spp,
            -((points[a] / 2) as int),
        )
}

/// The first `i` of `keys`, as a set.
pub open spec fn first_keys(keys: Seq<Seq<char>>, i: int) -> Set<Seq<char>> {
    Set::new(|a: Seq<char>| exists|j: int| 0 <= j < i && 0 <= j < keys.len() && #[trigger] keys[j] == a)
}

/// What a halving reports: one event with the height and the points taken.
pub open spec fn halflife_response(height: u64, reduction: nat) -> ResponseView {
    ResponseView {
        events: seq![
            EventView {
                ty: "halflife"@,
                attributes: seq![
                    attr_view("height"@, decimal_text(height as nat)),
                    attr_view("reduction"@, decimal_text(reduction)),
                ],
            },
        ],
        ..empty_response()
    }
}

/// The states and inputs on which `end_block` may be called.
pub open spec fn end_block_requires(
    state: &Engagement,
    env: &Env,
) -> bool {
    &&& state.wf()
    &&& state.solvent()
    &&& state.halflife.in_range()
    &&& state.halflife.due(env.block.time) ==> halving_fits(
        state.adjust(),
        state.members@.points,
        state.distribution.shares_per_point,
    )
}

/// What `end_block` returns and how it leaves the state `post` that it found as `pre`.
pub open spec fn end_block_ensures(
    pre: &Engagement,
    env: &Env,
    post: &Engagement,
    r: Result<Response, ContractError>,
) -> bool {
    &&& post.wf()
    &&& post.solvent()
    &&& r.is_ok()
    &&& post.distribution == pre.distribution
    &&& post.admin == pre.admin
    &&& post.hooks == pre.hooks
    &&& post.preauth_hooks == pre.preauth_hooks
    &&& post.preauth_slashing == pre.preauth_slashing
    &&& post.slashers == pre.slashers
    &&& !pre.halflife.due(env.block.time) ==> r.unwrap()@ == empty_response() && *post == *pre
    &&& pre.halflife.due(env.block.time) ==> {
        let points = pre.members@.points;
        &&& post.halflife == (Halflife {
            halflife: pre.halflife.halflife,
            last_applied: env.block.time,
        })
        &&& post.members@.points == halved_points(points, Set::full())
        &&& post.members@.log == halved_log(
            pre.members@.log,
            points,
            env.block.height,
            Set::full(),
        )
        &&& post.adjust() == halved_adjust(
            pre.adjust(),
            points,
            pre.distribution.shares_per_point,
            Set::full(),
        )
        &&& post.members@.total <= pre.members@.total
        &&& r.unwrap()@ == halflife_response(
            env.block.height,
            (pre.members@.total - post.members@.total) as nat,
        )
    }
}

/// At the end of a block: where the halving is due, every member with more
/// than one point loses half of its points, rounded down, the corrections
/// take the change up, and the time of this halving is noted.
pub fn end_block(state: &mut Engagement, env: &Env) -> (r: Result<Response, ContractError>)
    requires
        end_block_requires(old(state), env),
    ensures
        end_block_ensures(old(state), env, final(state), r),
{
    if !state.halflife.should_apply(env.block.time) {
        return Ok(Response::new());
    }
    let ppw = state.distribution.shares_per_point;
    let height = env.block.height;
    let ghost points0 = state.members@.points;
    let ghost log0 = state.members@.log;
    let ghost adjust0 = state.adjust();
    let ghost entries0 = state.members.current.entries@;
    let ghost keys0 = keys_of(entries0);
    let ghost total0 = state.members@.total;
    let ghost before = *state;
    let mut reduction: u64 = 0;
    let n = state.members.current.len();
    proof {
        assert(first_keys(keys0, 0) =~= Set::<Seq<char>>::empty());
        assert(state.members@.points =~= halved_points(points0, first_keys(keys0, 0)));
        assert(state.members@.log =~= halved_log(log0, points0, height, first_keys(keys0, 0)));
        assert(state.adjust() =~= halved_adjust(adjust0, points0, ppw, first_keys(keys0, 0)));
    }
    let mut i: usize = 0;
    while i < n
        invariant
            i <= n,
            n == entries0.len(),
            before.wf(),
            entries0 == before.members.current.entries@,
            keys0 == keys_of(entries0),
            points0 == before.members@.points,
            halving_fits(adjust0, points0, ppw),
            state.wf(),
            state.solvent(),
            state.distribution == old(state).distribution,
            ppw == state.distribution.shares_per_point,
            state.same_registries(old(state)),
            state.members.current.entries@.len() == n,
            keys_of(state.members.current.entries@) == keys0,
            forall|j: int| i <= j < n ==> state.members.current.entries@[j].value == entries0[j].value,
            state.members@.points == halved_points(points0, first_keys(keys0, i as int)),
            state.members@.log == halved_log(log0, points0, height, first_keys(keys0, i as int)),
            state.adjust() == halved_adjust(adjust0, points0, ppw, first_keys(keys0, i as int)),
            reduction as int == total0 - state.members@.total,
            state.members@.total <= total0,
            total0 <= u64::MAX,
        decreases n - i,
    {
        let ghost done = first_keys(keys0, i as int);
        let ghost done2 = first_keys(keys0, i + 1);
        let ghost key = keys0[i as int];
        let ghost cur = *state;
        let points = state.members.current.entries[i].value;
        let addr = state.members.current.entries[i].key.clone();
        proof {
            assert(addr@ == keys_of(state.members.current.entries@)[i as int]);
            assert(key == entries0[i as int].key@);
            before.members.current.lemma_slot(i as int);
            assert(points0.contains_key(key) && points0[key] == points);
            state.members.current.lemma_slot(i as int);
            assert(!done.contains(key)) by {
                if done.contains(key) {
                    let j = choose|j: int| 0 <= j < i && 0 <= j < keys0.len() && #[trigger] keys0[j] == key;
                    before.members.current.lemma_slot(j);
                }
            }
            assert(done2 =~= done.insert(key)) by {
                assert(keys0[i as int] == key);
            }
        }
        if points > 1 {
            let kept = points_reduction(points);
            let diff = points - kept;
            proof {
                assert(diff == points / 2);
                assert(correction_fits(adjust0, key, ppw, -((points0[key] / 2) as int)));
                assert(adjustment_of(state.adjust(), key) == adjustment_of(adjust0, key));
                lemma_set_keeps_solvent(state.ledger(), key, Some(kept), ppw, height);
            }
            state.members.set(&addr, Some(kept), height);
            apply_points_correction(state, &addr, ppw, -(diff as i128));
            proof {
                lemma_step_keeps_balanced(&cur, state, key, Some(kept), height);
            }
            reduction = reduction + diff;
            proof {
                assert(state.members@.points =~= halved_points(points0, done2));
                assert(state.members@.log =~= halved_log(log0, points0, height, done2));
                assert(state.adjust() =~= halved_adjust(adjust0, points0, ppw, done2));
                assert(state.members.current.entries@.len() == n) by {
                    assert(keys_of(state.members.current.entries@).len() == keys_of(
                        cur.members.current.entries@,
                    ).len());
                }
            }
        } else {
            proof {
                assert(state.members@.points =~= halved_points(points0, done2));
                assert(state.members@.log =~= halved_log(log0, points0, height, done2));
                assert(state.adjust() =~= halved_adjust(adjust0, points0, ppw, done2));
            }
        }
        i = i + 1;
    }
    state.halflife = Halflife { halflife: state.halflife.halflife, last_applied: env.block.time };
    proof {
        let done = first_keys(keys0, n as int);
        assert forall|a: Seq<char>| points0.contains_key(a) implies done.contains(a) by {
            let j = before.members.current.slot(a);
            assert(keys0[j] == a);
        }
        assert(state.members@.points =~= halved_points(points0, Set::full()));
        assert(state.members@.log =~= halved_log(log0, points0, height, Set::full()));
        assert(state.adjust() =~= halved_adjust(adjust0, points0, ppw, Set::full()));
    }
    let mut event_attrs: Vec<crate::types::Attribute> = Vec::new();
    event_attrs.push(crate::types::attr("height", number_text(height as u128)));
    event_attrs.push(crate::types::attr("reduction", number_text(reduction as u128)));
    let evt = Event { ty: String::from_str("halflife"), attributes: event_attrs };
    let mut res = Response::new();
    res.add_event(evt);
    proof {
        let want = halflife_response(height, reduction as nat);
        assert(evt@.attributes =~= want.events[0].attributes);
        assert(res@.events =~= want.events);
    }
    Ok(res)
}

/// What the engine asks of the host when it is given its privileges.
pub open spec fn promote_response(halflife: Halflife) -> ResponseView {
    if halflife.halflife is Some {
        ResponseView {
            messages: seq![MsgView::RequestPrivilege { privilege: Privilege::EndBlocker }],
            ..empty_response()
        }
    } else {
        empty_response()
    }
}

/// What `privilege_promote` returns on the state `state`.
pub open spec fn privilege_promote_ensures(
    state: &Engagement,
    r: Result<Response, ContractError>,
) -> bool {
    &&& r.is_ok()
    &&& r.unwrap()@ == promote_response(state.halflife)
}

/// Asks to be called at the end of every block, where a halflife is set.
pub fn privilege_promote(state: &Engagement) -> (r: Result<Response, ContractError>)
    ensures
        privilege_promote_ensures(state, r),
{
    let mut res = Response::new();
    if state.halflife.halflife.is_some() {
        res.add_message(Msg::RequestPrivilege { privilege: Privilege::EndBlocker });
        assert(res@.messages =~= promote_response(state.halflife).messages);
    }
    Ok(res)
}

/// The states and inputs on which `query_total_points` may be called.
pub open spec fn query_total_points_requires(
    state: &Engagement,
) -> bool {
    &&& state.wf()
}

/// What `query_total_points` returns on the state `state`.
pub open spec fn query_total_points_ensures(
    state: &Engagement,
    r: TotalPointsResponse,
) -> bool {
    &&& r.points == state.members@.total
    &&& r.points == state.members.sum_of_points()
}

/// The total of all points.
pub fn query_total_points(state: &Engagement) -> (r: TotalPointsResponse)
    requires
        query_total_points_requires(state),
    ensures
        query_total_points_ensures(state, r),
{
    TotalPointsResponse { points: state.members.total() }
}

/// The states and inputs on which `query_member` may be called.
pub open spec fn query_member_requires(
    state: &Engagement,
    addr: &String,
    height: Option<u64>,
) -> bool {
    &&& state.wf()
}

/// What `query_member` returns on the state `state`.
pub open spec fn query_member_ensures(
    state: &Engagement,
    addr: &String,
    height: Option<u64>,
    r: MemberResponse,
) -> bool {
    &&& r.start_height is None
    &&& r.points == (match height {
        Some(h) => points_at(state.members@, addr@, h),
        None => lookup(state.members@.points, addr@),
    })
}

/// The points of `addr` now, or at the start of the block `height`.
pub fn query_member(state: &Engagement, addr: &String, height: Option<u64>) -> (r: MemberResponse)
    requires
        query_member_requires(state, addr, height),
    ensures
        query_member_ensures(state, addr, height, r),
{
    let points = match height {
        Some(h) => state.members.may_load_at_height(addr, h),
        None => state.members.may_load(addr),
    };
    MemberResponse { points, start_height: None }
}

/// The states and inputs on which `query_withdrawable_rewards` may be called.
pub open spec fn query_withdrawable_rewards_requires(
    state: &Engagement,
    owner: &String,
) -> bool {
    &&& state.wf()
    &&& state.solvent()
    &&& state.adjust().contains_key(owner@) ==> account_fits(
        state.distribution.shares_per_point,
        points_or_zero(lookup(state.members@.points, owner@)),
        state.adjust()[owner@],
    )
}

/// What `query_withdrawable_rewards` returns on the state `state`.
pub open spec fn query_withdrawable_rewards_ensures(
    state: &Engagement,
    owner: &String,
    r: RewardsResponse,
) -> bool {
    &&& r.rewards.denom@ == state.distribution.denom@
    &&& r.rewards.amount == (if state.adjust().contains_key(owner@) {
        withdrawable_in(state, owner@)
    } else {
        0
    })
}

/// The tokens that `owner` can withdraw: none where nothing is on record for it.
pub fn query_withdrawable_rewards(state: &Engagement, owner: &String) -> (r: RewardsResponse)
    requires
        query_withdrawable_rewards_requires(state, owner),
    ensures
        query_withdrawable_rewards_ensures(state, owner, r),
{
    match state.adjustments.get(owner) {
        Some(adj) => {
            assert(adj@ == state.adjust()[owner@]);
            assert(state.adjust().contains_key(owner@));
            RewardsResponse { rewards: withdrawable_rewards(state, owner, &state.distribution, adj) }
        },
        None => RewardsResponse { rewards: coin(0, &state.distribution.denom) },
    }
}

/// The states and inputs on which `query_undistributed_rewards` may be called.
pub open spec fn query_undistributed_rewards_requires(
    state: &Engagement,
    balance: u128,
) -> bool {
    &&& balance >= state.distribution.withdrawable_total
}

/// What `query_undistributed_rewards` returns on the state `state`.
pub open spec fn query_undistributed_rewards_ensures(
    state: &Engagement,
    balance: u128,
    r: RewardsResponse,
) -> bool {
    &&& r.rewards.denom@ == state.distribution.denom@
    &&& r.rewards.amount == undistributed(state, balance)
}

/// The tokens in the balance `balance` of the engine that are not yet distributed.
pub fn query_undistributed_rewards(state: &Engagement, balance: u128) -> (r: RewardsResponse)
    requires
        query_undistributed_rewards_requires(state, balance),
    ensures
        query_undistributed_rewards_ensures(state, balance, r),
{
    RewardsResponse { rewards: coin(balance - state.distribution.withdrawable_total, &state.distribution.denom) }
}

/// What `query_distributed_rewards` returns on the state `state`.
pub open spec fn query_distributed_rewards_ensures(
    state: &Engagement,
    r: RewardsResponse,
) -> bool {
    &&& r.rewards.denom@ == state.distribution.denom@
    &&& r.rewards.amount == state.distribution.distributed_total
}

/// All tokens ever distributed.
pub fn query_distributed_rewards(state: &Engagement) -> (r: RewardsResponse)
    ensures
        query_distributed_rewards_ensures(state, r),
{
    RewardsResponse { rewards: coin(state.distribution.distributed_total, &state.distribution.denom) }
}

/// The states and inputs on which `query_delegated` may be called.
pub open spec fn query_delegated_requires(
    state: &Engagement,
    owner: String,
) -> bool {
    &&& state.wf()
}

/// What `query_delegated` returns on the state `state`.
pub open spec fn query_delegated_ensures(
    state: &Engagement,
    owner: String,
    r: DelegatedResponse,
) -> bool {
    &&& r.delegated@ == adjustment_of(state.adjust(), owner@).delegated
}

/// The address that may withdraw in the place of `owner`: `owner` itself where it named nobody.
pub fn query_delegated(state: &Engagement, owner: String) -> (r: DelegatedResponse)
    requires
        query_delegated_requires(state, owner),
    ensures
        query_delegated_ensures(state, owner, r),
{
    match state.adjustments.get(&owner) {
        Some(adj) => {
            assert(adj@ == state.adjust()[owner@]);
            DelegatedResponse { delegated: adj.delegated.clone() }
        },
        None => DelegatedResponse { delegated: owner },
    }
}

/// The states and inputs on which `query_halflife` may be called.
pub open spec fn query_halflife_requires(
    state: &Engagement,
) -> bool {
    &&& state.halflife.in_range()
}

/// What `query_halflife` returns on the state `state`.
pub open spec fn query_halflife_ensures(
    state: &Engagement,
    r: HalflifeResponse,
) -> bool {
    &&& match state.halflife.halflife {
        Some(d) => r.halflife_info == Some(
            HalflifeInfo {
                last_halflife: state.halflife.last_applied,
                halflife: d,
                next_halflife: Timestamp {
                    nanos: (state.halflife.last_applied.nanos + d.secs * crate::types::NANOS_PER_SECOND) as u64,
                },
            },
        ),
        None => r.halflife_info is None,
    }
}

/// When the points were last halved and when they will be next: `None` where no halflife is set.
pub fn query_halflife(state: &Engagement) -> (r: HalflifeResponse)
    requires
        query_halflife_requires(state),
    ensures
        query_halflife_ensures(state, r),
{
    match state.halflife.halflife {
        Some(d) => HalflifeResponse {
            halflife_info: Some(
                HalflifeInfo {
                    last_halflife: state.halflife.last_applied,
                    halflife: d,
                    next_halflife: state.halflife.last_applied.plus_seconds(d.seconds()),
                },
            ),
        },
        None => HalflifeResponse { halflife_info: None },
    }
}

/// The largest number of members that one listing holds.
pub const MAX_LIMIT: u32 = 100;

/// The number of members that a listing holds where none is asked for.
pub const DEFAULT_LIMIT: u32 = 30;

/// The number of items that a listing holds for the limit asked for.
pub open spec fn page_size(limit: Option<u32>) -> int {
    match limit {
        Some(l) => if l < MAX_LIMIT {
            l as int
        } else {
            MAX_LIMIT as int
        },
        None => DEFAULT_LIMIT as int,
    }
}

/// The number of items that a listing holds for the limit asked for.
pub fn limit_of(limit: Option<u32>) -> (r: usize)
    ensures
        r == page_size(limit),
{
    match limit {
        Some(l) => if l < MAX_LIMIT {
            l as usize
        } else {
            MAX_LIMIT as usize
        },
        None => DEFAULT_LIMIT as usize,
    }
}

/// The states and inputs on which `list_members` may be called.
pub open spec fn list_members_requires(
    state: &Engagement,
    start_after: Option<String>,
    limit: Option<u32>,
) -> bool {
    &&& state.wf()
}

/// What `list_members` returns on the state `state`.
pub open spec fn list_members_ensures(
    state: &Engagement,
    start_after: Option<String>,
    limit: Option<u32>,
    r: MemberListResponse,
) -> bool {
    &&& crate::members::lists_from(
        state.members.current.entries@,
        opt_text(start_after),
        page_size(limit),
        views(r.members@),
    )
}

/// The members in ascending order of their addresses, from the one after
/// `start_after` on, as many as the limit allows.
pub fn list_members(state: &Engagement, start_after: Option<String>, limit: Option<u32>) -> (r: MemberListResponse)
    requires
        list_members_requires(state, start_after, limit),
    ensures
        list_members_ensures(state, start_after, limit, r),
{
    let n = limit_of(limit);
    let members = match &start_after {
        Some(s) => state.members.list(Some(s), n),
        None => state.members.list(None, n),
    };
    MemberListResponse { members }
}

/// The bound of a ranked listing that starts after the member `m`.
pub open spec fn rank_bound(m: Option<Member>) -> Option<(u64, Seq<char>)> {
    match m {
        Some(m) => Some((m.points, m.addr@)),
        None => None,
    }
}

/// The states and inputs on which `list_members_by_points` may be called.
pub open spec fn list_members_by_points_requires(
    state: &Engagement,
    start_after: Option<Member>,
    limit: Option<u32>,
) -> bool {
    &&& state.wf()
}

/// What `list_members_by_points` returns on the state `state`.
pub open spec fn list_members_by_points_ensures(
    state: &Engagement,
    start_after: Option<Member>,
    limit: Option<u32>,
    r: MemberListResponse,
) -> bool {
    &&& crate::members::ranked_from(
        state.members.current.entries@,
        rank_bound(start_after),
        page_size(limit),
        views(r.members@),
    )
}

/// The members from the highest rank down, from the one after `start_after`
/// on, as many as the limit allows. More points rank higher; among equal
/// points the later address does.
pub fn list_members_by_points(state: &Engagement, start_after: Option<Member>, limit: Option<u32>) -> (r:
    MemberListResponse)
    requires
        list_members_by_points_requires(state, start_after, limit),
    ensures
        list_members_by_points_ensures(state, start_after, limit, r),
{
    let n = limit_of(limit);
    let ghost bound = rank_bound(start_after);
    let start = match start_after {
        Some(m) => Some((m.points, m.addr)),
        None => None,
    };
    assert(crate::members::bound_view(start) == bound);
    MemberListResponse { members: state.members.list_by_points(start, n) }
}

/// What `migrate` returns and how it leaves the state `post` that it found as `pre`.
pub open spec fn migrate_ensures(
    pre: &Engagement,
    msg: MigrateMsg,
    post: &Engagement,
    r: Result<Response, ContractError>,
) -> bool {
    &&& r.is_ok()
    &&& r.unwrap()@ == empty_response()
    &&& post.halflife.last_applied == pre.halflife.last_applied
    &&& post.halflife.halflife == (match msg.halflife {
        Some(d) => if d.secs > 0 {
            Some(d)
        } else {
            None
        },
        None => pre.halflife.halflife,
    })
    &&& post.members == pre.members
    &&& post.adjustments == pre.adjustments
    &&& post.distribution == pre.distribution
    &&& post.admin == pre.admin
    &&& post.hooks == pre.hooks
    &&& post.preauth_hooks == pre.preauth_hooks
    &&& post.preauth_slashing == pre.preauth_slashing
    &&& post.slashers == pre.slashers
}

/// Sets the halflife anew where `msg` names one; zero seconds end the halving.
pub fn migrate(state: &mut Engagement, msg: MigrateMsg) -> (r: Result<Response, ContractError>)
    ensures
        migrate_ensures(old(state), msg, final(state), r),
{
    match msg.halflife {
        Some(duration) => {
            state.halflife = Halflife {
                halflife: if duration.seconds() > 0 {
                    Some(duration)
                } else {
                    None
                },
                last_applied: state.halflife.last_applied,
            };
        },
        None => {},
    }
    Ok(Response::new())
}

/// The states and inputs on which `execute` may be called: those on which
/// the operation that the message names may be.
pub open spec fn execute_requires(
    state: &Engagement,
    env: &Env,
    info: &MessageInfo,
    msg: ExecuteMsg,
    balance: u128,
) -> bool {
    &&& state.wf()
    &&& state.solvent()
    &&& match msg {
        ExecuteMsg::UpdateAdmin { admin } => true,
        ExecuteMsg::UpdateMembers { remove, add } => execute_update_members_requires(state, env, info, add, remove),
        ExecuteMsg::AddPoints { addr, points } => execute_add_points_requires(state, env, info, addr, points),
        ExecuteMsg::AddHook { addr } => true,
        ExecuteMsg::RemoveHook { addr } => true,
        ExecuteMsg::DistributeRewards { sender } => execute_distribute_rewards_requires(
            state,
            env,
            info,
            sender,
            balance,
        ),
        ExecuteMsg::WithdrawRewards { owner, receiver } => execute_withdraw_rewards_requires(
            state,
            info,
            owner,
            receiver,
        ),
        ExecuteMsg::DelegateWithdrawal { delegated } => true,
        ExecuteMsg::AddSlasher { addr } => true,
        ExecuteMsg::RemoveSlasher { addr } => true,
        ExecuteMsg::Slash { addr, portion } => execute_slash_requires(state, env, info, addr, portion),
    }
}

/// What a change of admin returns and how it leaves the state.
pub open spec fn update_admin_ensures(
    pre: &Engagement,
    info: &MessageInfo,
    admin: Option<String>,
    post: &Engagement,
    r: Result<Response, ContractError>,
) -> bool {
    &&& r.is_ok() <==> pre.admin@ == Some(info.sender@)
    &&& r.is_ok() ==> post.admin@ == opt_text(admin) && r.unwrap()@
        == crate::controllers::update_admin_response(info.sender@, opt_text(admin))
    &&& r.is_err() ==> r == Err::<Response, ContractError>(ContractError::NotAdmin) && *post == *pre
    &&& post.members == pre.members
    &&& post.adjustments == pre.adjustments
    &&& post.distribution == pre.distribution
    &&& post.hooks == pre.hooks
    &&& post.slashers == pre.slashers
    &&& post.preauth_hooks == pre.preauth_hooks
    &&& post.preauth_slashing == pre.preauth_slashing
    &&& post.halflife == pre.halflife
}

/// What `execute` returns and how it leaves the state: what the operation
/// that the message names does.
pub open spec fn execute_ensures(
    pre: &Engagement,
    env: &Env,
    info: &MessageInfo,
    msg: ExecuteMsg,
    balance: u128,
    post: &Engagement,
    r: Result<Response, ContractError>,
) -> bool {
    &&& post.wf()
    &&& post.solvent()
    &&& match msg {
        ExecuteMsg::UpdateAdmin { admin } => update_admin_ensures(pre, info, admin, post, r),
        ExecuteMsg::UpdateMembers { remove, add } => execute_update_members_ensures(
            pre,
            env,
            info,
            add,
            remove,
            post,
            r,
        ),
        ExecuteMsg::AddPoints { addr, points } => execute_add_points_ensures(pre, env, info, addr, points, post, r),
        ExecuteMsg::AddHook { addr } => execute_add_hook_ensures(pre, info, addr, post, r),
        ExecuteMsg::RemoveHook { addr } => execute_remove_hook_ensures(pre, info, addr, post, r),
        ExecuteMsg::DistributeRewards { sender } => execute_distribute_rewards_ensures(
            pre,
            env,
            info,
            sender,
            balance,
            post,
            r,
        ),
        ExecuteMsg::WithdrawRewards { owner, receiver } => execute_withdraw_rewards_ensures(
            pre,
            info,
            owner,
            receiver,
            post,
            r,
        ),
        ExecuteMsg::DelegateWithdrawal { delegated } => execute_delegate_withdrawal_ensures(
            pre,
            info,
            delegated,
            post,
            r,
        ),
        ExecuteMsg::AddSlasher { addr } => execute_add_slasher_ensures(pre, info, addr, post, r),
        ExecuteMsg::RemoveSlasher { addr } => execute_remove_slasher_ensures(pre, info, addr, post, r),
        ExecuteMsg::Slash { addr, portion } => execute_slash_ensures(pre, env, info, addr, portion, post, r),
    }
}

/// Carries out the operation that `msg` names. `balance` is the engine's
/// balance in the denom of the rewards, as the host reports it.
pub fn execute(state: &mut Engagement, env: &Env, info: &MessageInfo, msg: ExecuteMsg, balance: u128) -> (r:
    Result<Response, ContractError>)
    requires
        execute_requires(old(state), env, info, msg, balance),
    ensures
        execute_ensures(old(state), env, info, msg, balance, final(state), r),
{
    match msg {
        ExecuteMsg::UpdateAdmin { admin } => state.admin.execute_update_admin(&info.sender, admin),
        ExecuteMsg::UpdateMembers { remove, add } => execute_update_members(state, env, info, add, remove),
        ExecuteMsg::AddPoints { addr, points } => execute_add_points(state, env, info, addr, points),
        ExecuteMsg::AddHook { addr } => execute_add_hook(state, info, addr),
        ExecuteMsg::RemoveHook { addr } => execute_remove_hook(state, info, addr),
        ExecuteMsg::DistributeRewards { sender } => execute_distribute_rewards(state, env, info, sender, balance),
        ExecuteMsg::WithdrawRewards { owner, receiver } => execute_withdraw_rewards(state, info, owner, receiver),
        ExecuteMsg::DelegateWithdrawal { delegated } => execute_delegate_withdrawal(state, info, delegated),
        ExecuteMsg::AddSlasher { addr } => execute_add_slasher(state, info, addr),
        ExecuteMsg::RemoveSlasher { addr } => execute_remove_slasher(state, info, addr),
        ExecuteMsg::Slash { addr, portion } => execute_slash(state, env, info, addr, portion),
    }
}

/// The states and inputs on which `sudo` may be called.
pub open spec fn sudo_requires(state: &Engagement, env: &Env, msg: SudoMsg) -> bool {
    &&& state.wf()
    &&& state.solvent()
    &&& match msg {
        SudoMsg::UpdateMember(member) => sudo_add_member_requires(state, env, member),
        SudoMsg::EndBlock => end_block_requires(state, env),
        _ => true,
    }
}

/// What `sudo` returns and how it leaves the state: a trusted edit of one
/// member, the request for privileges, the work at the end of a block; any
/// other message is refused.
pub open spec fn sudo_ensures(
    pre: &Engagement,
    env: &Env,
    msg: SudoMsg,
    post: &Engagement,
    r: Result<Response, ContractError>,
) -> bool {
    match msg {
        SudoMsg::UpdateMember(member) => sudo_add_member_ensures(pre, env, member, post, r),
        SudoMsg::PrivilegeChange(PrivilegeChangeMsg::Promoted) => privilege_promote_ensures(pre, r) && *post == *pre,
        SudoMsg::EndBlock => end_block_ensures(pre, env, post, r),
        _ => r == Err::<Response, ContractError>(ContractError::UnknownSudoMsg) && *post == *pre,
    }
}

/// Carries out what the host itself asks for.
pub fn sudo(state: &mut Engagement, env: &Env, msg: SudoMsg) -> (r: Result<Response, ContractError>)
    requires
        sudo_requires(old(state), env, msg),
    ensures
        sudo_ensures(old(state), env, msg, final(state), r),
{
    match msg {
        SudoMsg::UpdateMember(member) => sudo_add_member(state, env, member),
        SudoMsg::PrivilegeChange(PrivilegeChangeMsg::Promoted) => privilege_promote(state),
        SudoMsg::EndBlock => end_block(state, env),
        _ => Err(ContractError::UnknownSudoMsg),
    }
}

/// The states and inputs on which `query` may be called.
pub open spec fn query_requires(state: &Engagement, msg: QueryMsg, balance: u128) -> bool {
    &&& state.wf()
    &&& state.solvent()
    &&& match msg {
        QueryMsg::WithdrawableRewards { owner } => query_withdrawable_rewards_requires(state, &owner),
        QueryMsg::UndistributedRewards => query_undistributed_rewards_requires(state, balance),
        QueryMsg::Halflife => query_halflife_requires(state),
        _ => true,
    }
}

/// What `query` answers: for every kind of question the answer of its kind.
pub open spec fn query_ensures(state: &Engagement, msg: QueryMsg, balance: u128, r: QueryResponse) -> bool {
    match msg {
        QueryMsg::Member { addr, at_height } => r matches QueryResponse::Member(m) && query_member_ensures(
            state,
            &addr,
            at_height,
            m,
        ),
        QueryMsg::ListMembers { start_after, limit } => r matches QueryResponse::MemberList(l)
            && list_members_ensures(state, start_after, limit, l),
        QueryMsg::ListMembersByPoints { start_after, limit } => r matches QueryResponse::MemberList(l)
            && list_members_by_points_ensures(state, start_after, limit, l),
        QueryMsg::TotalPoints => r matches QueryResponse::TotalPoints(t) && query_total_points_ensures(state, t),
        QueryMsg::Admin => r matches QueryResponse::Admin(a) && opt_text(a) == state.admin@,
        QueryMsg::Hooks => r matches QueryResponse::Hooks(h) && views(h@) == state.hooks@,
        QueryMsg::Preauths => r matches QueryResponse::Preauths(n) && n == state.preauth_hooks.count,
        QueryMsg::WithdrawableRewards { owner } => r matches QueryResponse::Rewards(w)
            && query_withdrawable_rewards_ensures(state, &owner, w),
        QueryMsg::DistributedRewards => r matches QueryResponse::Rewards(w) && query_distributed_rewards_ensures(
            state,
            w,
        ),
        QueryMsg::UndistributedRewards => r matches QueryResponse::Rewards(w)
            && query_undistributed_rewards_ensures(state, balance, w),
        QueryMsg::Delegated { owner } => r matches QueryResponse::Delegated(d) && query_delegated_ensures(
            state,
            owner,
            d,
        ),
        QueryMsg::Halflife => r matches QueryResponse::Halflife(h) && query_halflife_ensures(state, h),
        QueryMsg::IsSlasher { addr } => r matches QueryResponse::IsSlasher(b) && b == state.slashers@.contains(
            addr@,
        ),
        QueryMsg::ListSlashers => r matches QueryResponse::Slashers(l) && views(l@) == state.slashers@,
        QueryMsg::DistributionData => r matches QueryResponse::DistributionData(d) && d == state.distribution,
        QueryMsg::WithdrawAdjustmentData { addr } => r matches QueryResponse::WithdrawAdjustmentData(a) && (match a {
            Some(x) => state.adjust().contains_key(addr@) && x@ == state.adjust()[addr@],
            None => !state.adjust().contains_key(addr@),
        }),
    }
}

/// Answers the question that `msg` asks. `balance` is the engine's balance in
/// the denom of the rewards, as the host reports it.
pub fn query(state: &Engagement, env: &Env, msg: QueryMsg, balance: u128) -> (r: QueryResponse)
    requires
        query_requires(state, msg, balance),
    ensures
        query_ensures(state, msg, balance, r),
{
    match msg {
        QueryMsg::Member { addr, at_height } => QueryResponse::Member(query_member(state, &addr, at_height)),
        QueryMsg::ListMembers { start_after, limit } => QueryResponse::MemberList(
            list_members(state, start_after, limit),
        ),
        QueryMsg::ListMembersByPoints { start_after, limit } => QueryResponse::MemberList(
            list_members_by_points(state, start_after, limit),
        ),
        QueryMsg::TotalPoints => QueryResponse::TotalPoints(query_total_points(state)),
        QueryMsg::Admin => QueryResponse::Admin(state.admin.query_admin()),
        QueryMsg::Hooks => QueryResponse::Hooks(state.hooks.list_hooks()),
        QueryMsg::Preauths => QueryResponse::Preauths(state.preauth_hooks.get_auth()),
        QueryMsg::WithdrawableRewards { owner } => QueryResponse::Rewards(query_withdrawable_rewards(state, &owner)),
        QueryMsg::DistributedRewards => QueryResponse::Rewards(query_distributed_rewards(state)),
        QueryMsg::UndistributedRewards => QueryResponse::Rewards(query_undistributed_rewards(state, balance)),
        QueryMsg::Delegated { owner } => QueryResponse::Delegated(query_delegated(state, owner)),
        QueryMsg::Halflife => QueryResponse::Halflife(query_halflife(state)),
        QueryMsg::IsSlasher { addr } => QueryResponse::IsSlasher(state.slashers.is_slasher(&addr)),
        QueryMsg::ListSlashers => QueryResponse::Slashers(state.slashers.list_slashers()),
        QueryMsg::DistributionData => QueryResponse::DistributionData(state.distribution.duplicate()),
        QueryMsg::WithdrawAdjustmentData { addr } => QueryResponse::WithdrawAdjustmentData(
            match state.adjustments.get(&addr) {
                Some(a) => {
                    assert(a@ == state.adjust()[addr@]);
                    Some(a.duplicate())
                },
                None => None,
            },
        ),
    }
}

} // verus!
