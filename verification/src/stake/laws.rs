//! What holds of the stake engine over all states and inputs.

use crate::controllers::lemma_register_then_unregister;
use crate::decimal::{lemma_portion_bounds, Decimal, DECIMAL_FRACTIONAL};
use crate::error::ContractError;
use crate::keyed::{lemma_sum_insert, seq_sum};
use crate::members::lookup;
use crate::stake::claim::{
    amounts_for, claim_added, claim_slot, claims_ascend, group_sum, has_claim, held_for, kept,
    lemma_claim_slot, liquid_amounts, liquid_sum, mature_of, merged, picks, taken, vesting_amounts,
    vesting_of, vesting_sum, ClaimView, Pick,
};
use crate::keyed::{lemma_sum_update};
use crate::stake::contract::{claim_response, execute_bond_requires, execute_unbond_requires, mature_claims};
use crate::types::NANOS_PER_SECOND;
use crate::stake::contract::{
    execute_add_hook_ensures, execute_bond_ensures, execute_claim_ensures, execute_ensures, execute_requires,
    execute_remove_hook_ensures, execute_slash_ensures, execute_unbond_ensures, funds_amount,
    migrate_ensures, stake_after_slash,
};
use crate::stake::contract::{sudo_ensures, sudo_requires};
use crate::stake::msg::{ExecuteMsg, MigrateMsg, SudoMsg};
use crate::stake::state::{points_for, staked, Stake};
use crate::types::{views, Env, MessageInfo, Response};
use vstd::prelude::*;

verus! {

/// The points of the members of a well-formed engine sum to its total.
pub proof fn law_points_sum_to_total(state: &Stake)
    requires
        state.wf(),
    ensures
        state.members.sum_of_points() == state.members@.total,
{
}

/// A stake below the least bond gives no points; any other stake gives one
/// point for every `tokens_per_point` tokens, rounded down.
pub proof fn law_points_for_stake(stake: int, tokens_per_point: u128, min_bond: u128)
    ensures
        points_for(stake, tokens_per_point, min_bond) is None <==> stake < min_bond,
        stake >= min_bond ==> points_for(stake, tokens_per_point, min_bond) == Some(
            (stake / (tokens_per_point as int)) as u64,
        ),
{
}

/// Where every address has the points that its stake gives, it still has
/// them after any operation.
pub proof fn law_membership_follows_stake(
    pre: &Stake,
    env: &Env,
    info: &MessageInfo,
    msg: ExecuteMsg,
    post: &Stake,
    r: Result<Response, ContractError>,
)
    requires
        pre.membership_consistent(),
        execute_requires(pre, env, info, msg),
        execute_ensures(pre, env, info, msg, post, r),
    ensures
        post.membership_consistent(),
{
    let tpp = pre.config.tokens_per_point;
    let mb = pre.config.min_bond;
    assert(post.config == pre.config);
    assert forall|a: Seq<char>|
        lookup(post.members@.points, a) == points_for(
            #[trigger] post.bonded(a),
            post.config.tokens_per_point,
            post.config.min_bond,
        ) by {
        assert(lookup(pre.members@.points, a) == points_for(pre.bonded(a), tpp, mb));
        match msg {
            ExecuteMsg::Bond { vesting_tokens } => {
                if r.is_ok() {
                    if a != info.sender@ {
                        assert(post.bonded(a) == pre.bonded(a));
                        assert(lookup(post.members@.points, a) == lookup(pre.members@.points, a));
                    }
                }
            },
            ExecuteMsg::Unbond { tokens } => {
                if r.is_ok() {
                    if a != info.sender@ {
                        assert(post.bonded(a) == pre.bonded(a));
                        assert(lookup(post.members@.points, a) == lookup(pre.members@.points, a));
                    }
                }
            },
            ExecuteMsg::Slash { addr, portion } => {
                if r.is_ok() && pre.slashers@.contains(info.sender@) && portion.atomics <= DECIMAL_FRACTIONAL && (
                pre.stake@.contains_key(addr@) || pre.stake_vesting@.contains_key(addr@)) {
                    lemma_portion_bounds(staked(pre.stake@, addr@), portion);
                    lemma_portion_bounds(staked(pre.stake_vesting@, addr@), portion);
                    lemma_portion_bounds(0, portion);
                    if a != addr@ {
                        assert(post.bonded(a) == pre.bonded(a));
                        assert(lookup(post.members@.points, a) == lookup(pre.members@.points, a));
                    } else {
                        assert(post.bonded(a) == stake_after_slash(pre, addr@, portion));
                    }
                }
            },
            _ => {},
        }
    }
}

/// Split off the head of a sequence and the sum splits with it.
proof fn lemma_sum_head(x: int, s: Seq<int>)
    ensures
        seq_sum(seq![x] + s) == x + seq_sum(s),
{
    assert(s.insert(0, x) =~= seq![x] + s);
    lemma_sum_insert(s, 0, x);
}

/// What a release takes and what it keeps make up what was there: for every
/// address the tokens released and those still held sum to the tokens held before.
pub proof fn law_release_splits(s: Seq<ClaimView>, p: Pick, limit: int, addr: Seq<char>, vesting: bool)
    ensures
        group_sum(s, addr, vesting) == group_sum(taken(s, p, limit), addr, vesting) + group_sum(
            kept(s, p, limit),
            addr,
            vesting,
        ),
    decreases s.len(),
{
    if s.len() == 0 {
        assert(amounts_for(s, addr, vesting) =~= Seq::<int>::empty());
    } else {
        let rest = s.drop_first();
        let x = amounts_for(s, addr, vesting)[0];
        assert(amounts_for(s, addr, vesting) =~= seq![x] + amounts_for(rest, addr, vesting));
        lemma_sum_head(x, amounts_for(rest, addr, vesting));
        if limit > 0 && picks(p, s[0]) {
            law_release_splits(rest, p, limit - 1, addr, vesting);
            let t = taken(rest, p, limit - 1);
            assert(amounts_for(seq![s[0]] + t, addr, vesting) =~= seq![x] + amounts_for(t, addr, vesting));
            lemma_sum_head(x, amounts_for(t, addr, vesting));
        } else {
            law_release_splits(rest, p, limit, addr, vesting);
            let k = kept(rest, p, limit);
            assert(amounts_for(seq![s[0]] + k, addr, vesting) =~= seq![x] + amounts_for(k, addr, vesting));
            lemma_sum_head(x, amounts_for(k, addr, vesting));
        }
    }
}

/// No two claims of one ledger are of the same address and release: claims
/// that would be are merged.
pub proof fn law_claims_are_merged(s: Seq<ClaimView>, i: int, j: int)
    requires
        claims_ascend(s),
        0 <= i < s.len(),
        0 <= j < s.len(),
        s[i].addr == s[j].addr,
        s[i].release_at == s[j].release_at,
    ensures
        i == j,
{
    lemma_claim_slot(s, i);
    lemma_claim_slot(s, j);
}

/// An unbonding adds what is unbonded to the tokens that the claims hold for
/// the sender, and a claim takes from them what it pays out; the claims of
/// other addresses hold what they held.
pub proof fn law_claims_hold_what_was_unbonded(
    s0: &Stake,
    s1: &Stake,
    env: &Env,
    info: &MessageInfo,
    amount: u128,
    denom: String,
    r: Result<Response, ContractError>,
)
    requires
        execute_unbond_ensures(s0, env, info, amount, denom, s1, r),
        r.is_ok(),
    ensures
        held_for(s1.claims@, info.sender@) == held_for(s0.claims@, info.sender@) + amount,
{
}

/// A release never takes more claims than the limit, and what a release
/// leaves behind of the claims that it might have taken is taken by the
/// next: taking `m` claims after `l` were taken is taking `l + m` at once.
pub proof fn law_release_respects_limit(s: Seq<ClaimView>, p: Pick, l: int, m: int)
    requires
        l >= 0,
        m >= 0,
    ensures
        taken(s, p, l).len() <= l,
        taken(s, p, l + m) == taken(s, p, l) + taken(kept(s, p, l), p, m),
        kept(s, p, l + m) == kept(kept(s, p, l), p, m),
    decreases s.len(),
{
    if s.len() > 0 {
        let rest = s.drop_first();
        if picks(p, s[0]) {
            if l > 0 {
                law_release_respects_limit(rest, p, l - 1, m);
                assert(seq![s[0]] + (taken(rest, p, l - 1) + taken(kept(rest, p, l - 1), p, m)) =~= (seq![s[0]]
                    + taken(rest, p, l - 1)) + taken(kept(rest, p, l - 1), p, m));
            } else {
                law_release_respects_limit(rest, p, 0, m);
                lemma_nothing_taken(rest, p);
                let k = seq![s[0]] + kept(rest, p, 0);
                assert(k[0] == s[0]);
                assert(k.drop_first() =~= kept(rest, p, 0));
                assert(kept(rest, p, 0) =~= rest);
                if m > 0 {
                    lemma_nothing_taken(s, p);
                    assert(Seq::<ClaimView>::empty() + taken(k, p, m) =~= taken(k, p, m));
                    assert(k =~= s);
                } else {
                    lemma_nothing_taken(k, p);
                    assert(Seq::<ClaimView>::empty() + taken(k, p, 0) =~= taken(k, p, 0));
                }
            }
        } else {
            law_release_respects_limit(rest, p, l, m);
            let k = seq![s[0]] + kept(rest, p, l);
            assert(k[0] == s[0]);
            assert(k.drop_first() =~= kept(rest, p, l));
            assert(seq![s[0]] + kept(kept(rest, p, l), p, m) =~= kept(k, p, m));
        }
    } else {
        assert(Seq::<ClaimView>::empty() + Seq::<ClaimView>::empty() =~= Seq::<ClaimView>::empty());
    }
}

/// A release with the limit zero takes nothing and keeps everything.
pub proof fn lemma_nothing_taken(s: Seq<ClaimView>, p: Pick)
    ensures
        taken(s, p, 0) == Seq::<ClaimView>::empty(),
        kept(s, p, 0) == s,
    decreases s.len(),
{
    if s.len() > 0 {
        lemma_nothing_taken(s.drop_first(), p);
        assert(seq![s[0]] + s.drop_first() =~= s);
    } else {
        assert(s =~= Seq::<ClaimView>::empty());
    }
}

/// A hook that is registered and then removed leaves the hooks as they were.
pub proof fn law_add_then_remove_hook(
    s0: &Stake,
    s1: &Stake,
    s2: &Stake,
    adder: &MessageInfo,
    remover: &MessageInfo,
    hook: String,
    r1: Result<Response, ContractError>,
    r2: Result<Response, ContractError>,
)
    requires
        execute_add_hook_ensures(s0, adder, hook, s1, r1),
        execute_remove_hook_ensures(s1, remover, hook, s2, r2),
        r1.is_ok(),
        r2.is_ok(),
    ensures
        s2.hooks@ == s0.hooks@,
{
    lemma_register_then_unregister(s0.hooks@, hook@);
}

/// A migration that names zero tokens per point, or a least bond of zero, sets one.
pub proof fn law_migrate_floors(pre: &Stake, msg: MigrateMsg, post: &Stake, r: Result<Response, ContractError>)
    requires
        migrate_ensures(pre, msg, post, r),
    ensures
        msg.tokens_per_point == Some(0u128) ==> post.config.tokens_per_point == 1,
        msg.min_bond == Some(0u128) ==> post.config.min_bond == 1,
        post.config.tokens_per_point >= 1,
        post.config.min_bond >= 1,
{
}

/// A slash by nothing leaves the stake and the points as they are and burns
/// nothing; a slash by one leaves no stake and no points; a slash by more
/// than one fails and changes nothing.
pub proof fn law_slash_bounds(
    pre: &Stake,
    env: &Env,
    info: &MessageInfo,
    addr: String,
    portion: Decimal,
    post: &Stake,
    r: Result<Response, ContractError>,
)
    requires
        pre.wf(),
        pre.membership_consistent(),
        execute_slash_ensures(pre, env, info, addr, portion, post, r),
        pre.slashers@.contains(info.sender@),
        pre.stake@.contains_key(addr@) || pre.stake_vesting@.contains_key(addr@),
    ensures
        portion.atomics == 0 ==> r.is_ok() && post.stake@ == pre.stake@ && post.stake_vesting@
            == pre.stake_vesting@ && post.members@ == pre.members@,
        portion.atomics == DECIMAL_FRACTIONAL ==> r.is_ok() && post.bonded(addr@) == 0 && lookup(
            post.members@.points,
            addr@,
        ) is None,
        portion.atomics > DECIMAL_FRACTIONAL ==> r == Err::<Response, ContractError>(ContractError::InvalidPortion)
            && *post == *pre,
{
    if portion.atomics <= DECIMAL_FRACTIONAL {
        lemma_portion_bounds(staked(pre.stake@, addr@), portion);
        lemma_portion_bounds(staked(pre.stake_vesting@, addr@), portion);
        if portion.atomics == 0 {
            assert(post.stake@ =~= pre.stake@);
            assert(post.stake_vesting@ =~= pre.stake_vesting@);
            assert(stake_after_slash(pre, addr@, portion) == pre.bonded(addr@));
            assert(lookup(pre.members@.points, addr@) == points_for(
                pre.bonded(addr@),
                pre.config.tokens_per_point,
                pre.config.min_bond,
            ));
        }
    }
}

/// The tokens, liquid or vesting, of those claims in `s` that `p` picks, one number for each claim.
pub open spec fn picked_amounts(s: Seq<ClaimView>, p: Pick, vesting: bool) -> Seq<int> {
    Seq::new(
        s.len(),
        |i: int|
            if picks(p, s[i]) {
                if vesting {
                    vesting_of(s[i]) as int
                } else {
                    s[i].amount as int
                }
            } else {
                0
            },
    )
}

/// The sum of what a release takes.
pub open spec fn taken_sum(s: Seq<ClaimView>, vesting: bool) -> int {
    if vesting {
        vesting_sum(s)
    } else {
        liquid_sum(s)
    }
}

/// A release without a limit takes every claim that the pick picks: what it
/// takes sums to the tokens of those claims.
pub proof fn lemma_release_takes_all(s: Seq<ClaimView>, p: Pick, limit: int, vesting: bool)
    requires
        limit >= s.len(),
    ensures
        taken_sum(taken(s, p, limit), vesting) == seq_sum(picked_amounts(s, p, vesting)),
    decreases s.len(),
{
    let t = taken(s, p, limit);
    if s.len() == 0 {
        assert(picked_amounts(s, p, vesting) =~= Seq::<int>::empty());
        assert(liquid_amounts(t) =~= Seq::<int>::empty());
        assert(vesting_amounts(t) =~= Seq::<int>::empty());
    } else {
        let rest = s.drop_first();
        let x = picked_amounts(s, p, vesting)[0];
        assert(picked_amounts(s, p, vesting) =~= seq![x] + picked_amounts(rest, p, vesting));
        lemma_sum_head(x, picked_amounts(rest, p, vesting));
        if picks(p, s[0]) {
            lemma_release_takes_all(rest, p, limit - 1, vesting);
            let tr = taken(rest, p, limit - 1);
            assert(liquid_amounts(seq![s[0]] + tr) =~= seq![s[0].amount as int] + liquid_amounts(tr));
            assert(vesting_amounts(seq![s[0]] + tr) =~= seq![vesting_of(s[0]) as int] + vesting_amounts(tr));
            lemma_sum_head(s[0].amount as int, liquid_amounts(tr));
            lemma_sum_head(vesting_of(s[0]) as int, vesting_amounts(tr));
        } else {
            lemma_release_takes_all(rest, p, limit, vesting);
        }
    }
}

/// A claim that is taken into the ledger and that a pick picks adds its
/// tokens to what the pick picks.
pub proof fn lemma_added_is_picked(pre: Seq<ClaimView>, post: Seq<ClaimView>, c: ClaimView, p: Pick, vesting: bool)
    requires
        claims_ascend(pre),
        claim_added(pre, post, c),
        c.vesting_amount is Some,
        picks(p, c),
        crate::stake::claim::create_fits(pre, c.addr, c.release_at, c.amount, vesting_of(c)),
    ensures
        seq_sum(picked_amounts(post, p, vesting)) == seq_sum(picked_amounts(pre, p, vesting)) + (if vesting {
            vesting_of(c) as int
        } else {
            c.amount as int
        }),
{
    let add = if vesting {
        vesting_of(c) as int
    } else {
        c.amount as int
    };
    if has_claim(pre, c.addr, c.release_at) {
        let i = claim_slot(pre, c.addr, c.release_at);
        let m = merged(pre[i], c.amount, vesting_of(c));
        assert(picks(p, m) == picks(p, c));
        assert(picks(p, pre[i]) == picks(p, c));
        assert(picked_amounts(post, p, vesting) =~= picked_amounts(pre, p, vesting).update(
            i,
            picked_amounts(post, p, vesting)[i],
        ));
        lemma_sum_update(picked_amounts(pre, p, vesting), i, picked_amounts(post, p, vesting)[i]);
    } else {
        let i = choose|i: int| 0 <= i <= pre.len() && post == #[trigger] pre.insert(i, c);
        assert(picked_amounts(post, p, vesting) =~= picked_amounts(pre, p, vesting).insert(i, add));
        lemma_sum_insert(picked_amounts(pre, p, vesting), i, add);
    }
}

/// Tokens that are bonded and unbonded again leave the stake as it was and
/// are held by a claim of the sender; and when the unbonding period is over,
/// a claim pays them out together with what the sender could claim before.
pub proof fn law_bond_unbond_claim(
    s0: &Stake,
    s1: &Stake,
    s2: &Stake,
    s3: &Stake,
    bond_env: &Env,
    unbond_env: &Env,
    claim_env: &Env,
    bond_info: &MessageInfo,
    info: &MessageInfo,
    amount: u128,
    denom: String,
    r1: Result<Response, ContractError>,
    r2: Result<Response, ContractError>,
    r3: Result<Response, ContractError>,
)
    requires
        s0.wf(),
        bond_info.sender@ == info.sender@,
        funds_amount(views(bond_info.funds@), s0.config.denom@) == Ok::<u128, crate::stake::contract::FundsError>(
            amount,
        ),
        amount > 0,
        denom@ == s0.config.denom@,
        execute_bond_requires(s0, bond_env, bond_info, None),
        execute_bond_ensures(s0, bond_env, bond_info, None, s1, r1),
        execute_unbond_requires(s1, unbond_env, info, amount, denom),
        execute_unbond_ensures(s1, unbond_env, info, amount, denom, s2, r2),
        claim_env.block.time.nanos >= unbond_env.block.time.nanos + s0.config.unbonding_period.secs
            * NANOS_PER_SECOND,
        execute_claim_ensures(s2, claim_env, info, s3, r3),
    ensures
        r1.is_ok() && r2.is_ok() && r3.is_ok(),
        staked(s2.stake@, info.sender@) == staked(s0.stake@, info.sender@),
        staked(s2.stake_vesting@, info.sender@) == staked(s0.stake_vesting@, info.sender@),
        held_for(s2.claims@, info.sender@) == held_for(s0.claims@, info.sender@) + amount,
        r3.unwrap()@ == claim_response(
            info.sender@,
            s0.config.denom@,
            (liquid_sum(mature_claims(s0, claim_env, info.sender@)) + amount) as u128,
            vesting_sum(mature_claims(s0, claim_env, info.sender@)) as u128,
        ),
{
    let who = info.sender@;
    let now = claim_env.block.time.nanos;
    let p = mature_of(who, now);
    let stake1 = staked(s1.stake@, who);
    let completion = (unbond_env.block.time.nanos + s1.config.unbonding_period.secs * NANOS_PER_SECOND) as u64;
    let c = ClaimView {
        addr: who,
        amount,
        vesting_amount: Some(0u128),
        release_at: completion,
        creation_height: unbond_env.block.height,
    };
    assert(s1.claims == s0.claims);
    assert(stake1 == staked(s0.stake@, who) + amount);
    assert(crate::stake::contract::liquid_part(stake1, amount) == amount);
    assert(crate::stake::contract::vesting_part(stake1, amount) == 0);
    assert(claim_added(s1.claims@, s2.claims@, c));
    assert(picks(p, c));
    lemma_added_is_picked(s1.claims@, s2.claims@, c, p, false);
    lemma_added_is_picked(s1.claims@, s2.claims@, c, p, true);
    lemma_release_takes_all(s2.claims@, p, s2.claims@.len() as int, false);
    lemma_release_takes_all(s2.claims@, p, s2.claims@.len() as int, true);
    lemma_release_takes_all(s0.claims@, p, s0.claims@.len() as int, false);
    lemma_release_takes_all(s0.claims@, p, s0.claims@.len() as int, true);
    crate::keyed::lemma_sum_nonneg(picked_amounts(s0.claims@, p, false));
}

/// An operation that fails leaves the state as it found it.
pub proof fn law_failure_changes_nothing(
    pre: &Stake,
    env: &Env,
    info: &MessageInfo,
    msg: ExecuteMsg,
    post: &Stake,
    r: Result<Response, ContractError>,
)
    requires
        execute_requires(pre, env, info, msg),
        execute_ensures(pre, env, info, msg, post, r),
        r.is_err(),
    ensures
        *post == *pre,
{
}

/// What the host asks for and fails leaves the state as it was.
pub proof fn law_failed_sudo_changes_nothing(
    pre: &Stake,
    env: &Env,
    msg: SudoMsg,
    post: &Stake,
    r: Result<Response, ContractError>,
)
    requires
        sudo_requires(pre, env, msg),
        sudo_ensures(pre, env, msg, post, r),
        r.is_err(),
    ensures
        *post == *pre,
{
}

} // verus!
