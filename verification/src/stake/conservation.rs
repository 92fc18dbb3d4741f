//! The tokens that the engine holds for an address, and how the operations
//! move them: nothing is lost and nothing is made.

use crate::decimal::{lemma_portion_bounds, Decimal, DECIMAL_FRACTIONAL};
use crate::error::ContractError;
use crate::keyed::{lemma_sum_insert, lemma_sum_linear, seq_sum};
use crate::members::MembersView;
use crate::stake::claim::{
    amounts_for, claim_added, claim_slot, group_sum, groups, has_claim, has_claim_of, has_release_for, held_for,
    liquid_amounts, liquid_sum, mature, mature_of, merged, picks, slash_amounts, slashed_claims, taken,
    vesting_amounts, vesting_of, vesting_sum, ClaimView, ReleaseView,
};
use crate::stake::contract::{
    due_claims, end_block_ensures, end_block_requires, execute_bond_ensures, execute_bond_requires,
    execute_claim_ensures, execute_claim_requires, execute_ensures, execute_requires, execute_slash_ensures,
    execute_slash_requires, execute_unbond_ensures, execute_unbond_requires, funds_amount, liquid_part,
    mature_claims, send_msgs, undelegate_msgs, vesting_funds, vesting_part,
};
use crate::stake::laws::law_release_splits;
use crate::stake::msg::ExecuteMsg;
use crate::stake::state::{membership_msgs, staked, Stake};
use crate::text::addr_before;
use crate::types::{
    lemma_nothing_in, lemma_nothing_out, lemma_tokens_of_both, lemma_tokens_pushed, tokens_in, tokens_out, views,
    Coin, CoinView, Env, MessageInfo, MsgView, Response,
};
use vstd::prelude::*;

verus! {

/// All tokens that the engine holds for `a`: its liquid and its vesting
/// stake, and what its claims hold.
pub open spec fn held_by(state: &Stake, a: Seq<char>) -> int {
    state.bonded(a) + held_for(state.claims@, a)
}

/// The address whose tokens the message `msg` moves: the one that a slash names, or else the sender.
pub open spec fn moved_for(msg: ExecuteMsg, info: &MessageInfo) -> Seq<char> {
    match msg {
        ExecuteMsg::Slash { addr, portion } => addr@,
        _ => info.sender@,
    }
}

/// The tokens that come with the message `msg`: the funds of a bond.
pub open spec fn paid_in(state: &Stake, msg: ExecuteMsg, info: &MessageInfo) -> int {
    match msg {
        ExecuteMsg::Bond { vesting_tokens } => match funds_amount(views(info.funds@), state.config.denom@) {
            Ok(a) => a as int,
            Err(_) => 0,
        },
        _ => 0,
    }
}

/// The tokens that `pre` held for every address are those that `post` holds
/// for it, but for `who`: there what was held and what came in is what is
/// held and what went out.
pub open spec fn conserved(pre: &Stake, post: &Stake, who: Seq<char>, paid: int, msgs: Seq<MsgView>) -> bool {
    &&& held_by(post, who) + tokens_out(msgs) == held_by(pre, who) + paid + tokens_in(msgs)
    &&& forall|b: Seq<char>| b != who ==> #[trigger] held_by(post, b) == held_by(pre, b)
}

/// What the hooks are told moves no tokens.
proof fn lemma_hooks_move_nothing(hooks: Seq<Seq<char>>, m: MembersView, addr: Seq<char>, new: Option<u64>)
    ensures
        tokens_out(membership_msgs(hooks, m, addr, new)) == 0,
        tokens_in(membership_msgs(hooks, m, addr, new)) == 0,
{
    let msgs = membership_msgs(hooks, m, addr, new);
    lemma_nothing_out(msgs);
    lemma_nothing_in(msgs);
}

/// A claim that is taken into the ledger leaves what the claims hold for other addresses.
proof fn lemma_added_elsewhere(pre: Seq<ClaimView>, post: Seq<ClaimView>, c: ClaimView, b: Seq<char>, v: bool)
    requires
        claim_added(pre, post, c),
        b != c.addr,
    ensures
        group_sum(post, b, v) == group_sum(pre, b, v),
{
    if has_claim(pre, c.addr, c.release_at) {
        let i = claim_slot(pre, c.addr, c.release_at);
        assert(merged(pre[i], c.amount, vesting_of(c)).addr == c.addr);
        assert(amounts_for(post, b, v) =~= amounts_for(pre, b, v));
    } else {
        let i = choose|i: int| 0 <= i <= pre.len() && post == #[trigger] pre.insert(i, c);
        assert(amounts_for(post, b, v) =~= amounts_for(pre, b, v).insert(i, 0));
        lemma_sum_insert(amounts_for(pre, b, v), i, 0);
    }
}

/// What a release takes for one address is of that address, all of it.
proof fn lemma_taken_of_one(s: Seq<ClaimView>, who: Seq<char>, now: u64, limit: int, b: Seq<char>)
    ensures
        liquid_sum(taken(s, mature_of(who, now), limit)) == group_sum(taken(s, mature_of(who, now), limit), who, false),
        vesting_sum(taken(s, mature_of(who, now), limit)) == group_sum(taken(s, mature_of(who, now), limit), who, true),
        b != who ==> group_sum(taken(s, mature_of(who, now), limit), b, false) == 0 && group_sum(
            taken(s, mature_of(who, now), limit),
            b,
            true,
        ) == 0,
    decreases s.len(),
{
    let p = mature_of(who, now);
    let t = taken(s, p, limit);
    if s.len() == 0 {
        assert(liquid_amounts(t) =~= Seq::<int>::empty());
        assert(vesting_amounts(t) =~= Seq::<int>::empty());
        assert(amounts_for(t, who, false) =~= Seq::<int>::empty());
        assert(amounts_for(t, who, true) =~= Seq::<int>::empty());
        assert(amounts_for(t, b, false) =~= Seq::<int>::empty());
        assert(amounts_for(t, b, true) =~= Seq::<int>::empty());
    } else {
        let rest = s.drop_first();
        if limit > 0 && picks(p, s[0]) {
            lemma_taken_of_one(rest, who, now, limit - 1, b);
            let tr = taken(rest, p, limit - 1);
            let c = s[0];
            assert(c.addr == who);
            assert(liquid_amounts(t) =~= liquid_amounts(tr).insert(0, c.amount as int));
            assert(vesting_amounts(t) =~= vesting_amounts(tr).insert(0, vesting_of(c) as int));
            assert(amounts_for(t, who, false) =~= amounts_for(tr, who, false).insert(0, c.amount as int));
            assert(amounts_for(t, who, true) =~= amounts_for(tr, who, true).insert(0, vesting_of(c) as int));
            lemma_sum_insert(liquid_amounts(tr), 0, c.amount as int);
            lemma_sum_insert(vesting_amounts(tr), 0, vesting_of(c) as int);
            lemma_sum_insert(amounts_for(tr, who, false), 0, c.amount as int);
            lemma_sum_insert(amounts_for(tr, who, true), 0, vesting_of(c) as int);
            if b != who {
                assert(amounts_for(t, b, false) =~= amounts_for(tr, b, false).insert(0, 0));
                assert(amounts_for(t, b, true) =~= amounts_for(tr, b, true).insert(0, 0));
                lemma_sum_insert(amounts_for(tr, b, false), 0, 0);
                lemma_sum_insert(amounts_for(tr, b, true), 0, 0);
            }
        } else {
            lemma_taken_of_one(rest, who, now, limit, b);
        }
    }
}

/// A slash takes from what the claims hold for the address what it takes
/// from each of its claims, and leaves what they hold for other addresses.
proof fn lemma_slashed_claims_hold(s: Seq<ClaimView>, addr: Seq<char>, portion: Decimal, b: Seq<char>, v: bool)
    requires
        portion.atomics <= DECIMAL_FRACTIONAL,
    ensures
        group_sum(slashed_claims(s, addr, portion), addr, v) == group_sum(s, addr, v) - seq_sum(
            slash_amounts(s, addr, portion, v),
        ),
        b != addr ==> group_sum(slashed_claims(s, addr, portion), b, v) == group_sum(s, b, v),
{
    let t = slashed_claims(s, addr, portion);
    let before = amounts_for(s, addr, v);
    let cut = slash_amounts(s, addr, portion, v);
    let after = amounts_for(t, addr, v);
    assert forall|i: int| 0 <= i < before.len() implies after[i] == before[i] + (-1) * cut[i] by {
        lemma_portion_bounds(s[i].amount, portion);
        lemma_portion_bounds(vesting_of(s[i]), portion);
    }
    lemma_sum_linear(before, cut, after, -1);
    if b != addr {
        assert(amounts_for(t, b, v) =~= amounts_for(s, b, v));
    }
}

/// A bond adds to what the engine holds for the sender the funds that came
/// with it and the vesting tokens that it takes into custody.
proof fn lemma_bond_conserves(
    pre: &Stake,
    env: &Env,
    info: &MessageInfo,
    vesting_tokens: Option<Coin>,
    post: &Stake,
    r: Result<Response, ContractError>,
)
    requires
        execute_bond_requires(pre, env, info, vesting_tokens),
        execute_bond_ensures(pre, env, info, vesting_tokens, post, r),
        r.is_ok(),
    ensures
        conserved(
            pre,
            post,
            info.sender@,
            paid_in(pre, ExecuteMsg::Bond { vesting_tokens }, info),
            r.unwrap()@.messages,
        ),
{
    let who = info.sender@;
    let a = funds_amount(views(info.funds@), pre.config.denom@)->Ok_0;
    let v = vesting_funds(vesting_tokens, pre.config.denom@)->Ok_0;
    let points = crate::stake::state::points_for(
        pre.bonded(who) + a + v,
        pre.config.tokens_per_point,
        pre.config.min_bond,
    );
    let told = membership_msgs(pre.hooks@, pre.members@, who, points);
    let msgs = r.unwrap()@.messages;
    lemma_hooks_move_nothing(pre.hooks@, pre.members@, who, points);
    if v > 0 {
        let first = MsgView::Delegate { funds: CoinView { denom: pre.config.denom@, amount: v }, staker: who };
        lemma_tokens_of_both(seq![first], told);
        lemma_tokens_pushed(Seq::<MsgView>::empty(), first);
        assert(Seq::<MsgView>::empty().push(first) =~= seq![first]);
    }
    assert forall|b: Seq<char>| b != who implies #[trigger] held_by(post, b) == held_by(pre, b) by {}
}

/// An unbonding moves tokens of the sender from its stake into a claim.
proof fn lemma_unbond_conserves(
    pre: &Stake,
    env: &Env,
    info: &MessageInfo,
    amount: u128,
    denom: String,
    post: &Stake,
    r: Result<Response, ContractError>,
)
    requires
        execute_unbond_requires(pre, env, info, amount, denom),
        execute_unbond_ensures(pre, env, info, amount, denom, post, r),
        r.is_ok(),
    ensures
        conserved(pre, post, info.sender@, 0, r.unwrap()@.messages),
{
    let who = info.sender@;
    let stake = staked(pre.stake@, who);
    let points = crate::stake::state::points_for(
        pre.bonded(who) - amount,
        pre.config.tokens_per_point,
        pre.config.min_bond,
    );
    lemma_hooks_move_nothing(pre.hooks@, pre.members@, who, points);
    let completion = (env.block.time.nanos + pre.config.unbonding_period.secs * crate::types::NANOS_PER_SECOND) as u64;
    let c = ClaimView {
        addr: who,
        amount: liquid_part(stake, amount),
        vesting_amount: Some(vesting_part(stake, amount)),
        release_at: completion,
        creation_height: env.block.height,
    };
    assert forall|b: Seq<char>| b != who implies #[trigger] held_by(post, b) == held_by(pre, b) by {
        lemma_added_elsewhere(pre.claims@, post.claims@, c, b, false);
        lemma_added_elsewhere(pre.claims@, post.claims@, c, b, true);
    }
}

/// A claim pays out to the sender what its mature claims held.
proof fn lemma_claim_conserves(
    pre: &Stake,
    env: &Env,
    info: &MessageInfo,
    post: &Stake,
    r: Result<Response, ContractError>,
)
    requires
        execute_claim_requires(pre, env, info),
        execute_claim_ensures(pre, env, info, post, r),
        r.is_ok(),
    ensures
        conserved(pre, post, info.sender@, 0, r.unwrap()@.messages),
{
    let who = info.sender@;
    let now = env.block.time.nanos;
    let p = mature_of(who, now);
    let n = pre.claims@.len() as int;
    let released = mature_claims(pre, env, who);
    let liquid = liquid_sum(released);
    let vesting = vesting_sum(released);
    lemma_taken_of_one(pre.claims@, who, now, n, who);
    law_release_splits(pre.claims@, p, n, who, false);
    law_release_splits(pre.claims@, p, n, who, true);
    crate::keyed::lemma_sum_nonneg(liquid_amounts(released));
    crate::keyed::lemma_sum_nonneg(vesting_amounts(released));
    let denom = pre.config.denom@;
    let send = MsgView::Send { to_address: who, amount: CoinView { denom, amount: liquid as u128 } };
    let back = MsgView::Undelegate { funds: CoinView { denom, amount: vesting as u128 }, recipient: who };
    let none = Seq::<MsgView>::empty();
    lemma_tokens_pushed(none, send);
    lemma_tokens_pushed(none, back);
    lemma_tokens_pushed(none.push(send), back);
    assert forall|b: Seq<char>| b != who implies #[trigger] held_by(post, b) == held_by(pre, b) by {
        lemma_taken_of_one(pre.claims@, who, now, n, b);
        law_release_splits(pre.claims@, p, n, b, false);
        law_release_splits(pre.claims@, p, n, b, true);
    }
}

/// A slash burns what it takes from the stake and the claims of the address.
proof fn lemma_slash_conserves(
    pre: &Stake,
    env: &Env,
    info: &MessageInfo,
    addr: String,
    portion: Decimal,
    post: &Stake,
    r: Result<Response, ContractError>,
)
    requires
        execute_slash_requires(pre, env, info, addr, portion),
        execute_slash_ensures(pre, env, info, addr, portion, post, r),
        r.is_ok(),
    ensures
        conserved(pre, post, addr@, 0, r.unwrap()@.messages),
{
    let who = addr@;
    let msgs = r.unwrap()@.messages;
    if !pre.stake@.contains_key(who) && !pre.stake_vesting@.contains_key(who) {
        assert(msgs =~= Seq::<MsgView>::empty());
    } else {
        let points = crate::stake::state::points_for(
            crate::stake::contract::stake_after_slash(pre, who, portion),
            pre.config.tokens_per_point,
            pre.config.min_bond,
        );
        let told = membership_msgs(pre.hooks@, pre.members@, who, points);
        lemma_hooks_move_nothing(pre.hooks@, pre.members@, who, points);
        lemma_portion_bounds(staked(pre.stake@, who), portion);
        lemma_portion_bounds(staked(pre.stake_vesting@, who), portion);
        lemma_slashed_claims_hold(pre.claims@, who, portion, who, false);
        lemma_slashed_claims_hold(pre.claims@, who, portion, who, true);
        let liquid = crate::stake::contract::slash_burn(pre.stake@, pre.claims@, who, portion, false);
        let vesting = crate::stake::contract::slash_burn(pre.stake_vesting@, pre.claims@, who, portion, true);
        assert(liquid >= 0 && vesting >= 0) by {
            assert forall|i: int| 0 <= i < pre.claims@.len() implies slash_amounts(pre.claims@, who, portion, false)[i]
                >= 0 && slash_amounts(pre.claims@, who, portion, true)[i] >= 0 by {
                lemma_portion_bounds(pre.claims@[i].amount, portion);
                lemma_portion_bounds(vesting_of(pre.claims@[i]), portion);
            }
            crate::keyed::lemma_sum_nonneg(slash_amounts(pre.claims@, who, portion, false));
            crate::keyed::lemma_sum_nonneg(slash_amounts(pre.claims@, who, portion, true));
        }
        let denom = pre.config.denom@;
        let burn = MsgView::Burn { amount: CoinView { denom, amount: liquid as u128 } };
        let burn_vesting = MsgView::Burn { amount: CoinView { denom, amount: vesting as u128 } };
        let none = Seq::<MsgView>::empty();
        lemma_tokens_pushed(none, burn);
        lemma_tokens_pushed(none, burn_vesting);
        lemma_tokens_pushed(none.push(burn), burn_vesting);
        let m1 = if liquid as u128 > 0 {
            none.push(burn)
        } else {
            none
        };
        let m2 = if vesting as u128 > 0 {
            m1.push(burn_vesting)
        } else {
            m1
        };
        lemma_tokens_of_both(m2, told);
        assert(msgs == m2 + told);
        assert forall|b: Seq<char>| b != who implies #[trigger] held_by(post, b) == held_by(pre, b) by {
            lemma_slashed_claims_hold(pre.claims@, who, portion, b, false);
            lemma_slashed_claims_hold(pre.claims@, who, portion, b, true);
        }
    }
}

/// No operation loses or makes tokens. What the engine holds for an address,
/// as stake and in claims, changes only for the address whose tokens the
/// operation moves, and for that address what was held and what came in,
/// with the message or into custody, is what is held afterwards and what
/// went out: sent, given back or burned.
pub proof fn law_tokens_are_conserved(
    pre: &Stake,
    env: &Env,
    info: &MessageInfo,
    msg: ExecuteMsg,
    post: &Stake,
    r: Result<Response, ContractError>,
)
    requires
        execute_requires(pre, env, info, msg),
        execute_ensures(pre, env, info, msg, post, r),
        r.is_ok(),
    ensures
        conserved(pre, post, moved_for(msg, info), paid_in(pre, msg, info), r.unwrap()@.messages),
{
    let msgs = r.unwrap()@.messages;
    match msg {
        ExecuteMsg::Bond { vesting_tokens } => {
            lemma_bond_conserves(pre, env, info, vesting_tokens, post, r);
        },
        ExecuteMsg::Unbond { tokens } => {
            lemma_unbond_conserves(pre, env, info, tokens.amount, tokens.denom, post, r);
        },
        ExecuteMsg::Claim => {
            lemma_claim_conserves(pre, env, info, post, r);
        },
        ExecuteMsg::Slash { addr, portion } => {
            lemma_slash_conserves(pre, env, info, addr, portion, post, r);
        },
        _ => {
            assert(msgs =~= Seq::<MsgView>::empty());
        },
    }
}

/// The tokens that the message `m` hands to `a`: what it sends to it or gives back to it out of custody.
pub open spec fn tokens_to_of(m: MsgView, a: Seq<char>) -> int {
    match m {
        MsgView::Send { to_address, amount } => if to_address == a {
            amount.amount as int
        } else {
            0
        },
        MsgView::Undelegate { funds, recipient } => if recipient == a {
            funds.amount as int
        } else {
            0
        },
        _ => 0,
    }
}

/// The tokens that the messages `msgs` together hand to `a`.
pub open spec fn tokens_to(msgs: Seq<MsgView>, a: Seq<char>) -> int
    decreases msgs.len(),
{
    if msgs.len() == 0 {
        0
    } else {
        tokens_to(msgs.drop_last(), a) + tokens_to_of(msgs.last(), a)
    }
}

/// What two runs of messages hand to an address, they hand to it together.
proof fn lemma_tokens_to_both(x: Seq<MsgView>, y: Seq<MsgView>, a: Seq<char>)
    ensures
        tokens_to(x + y, a) == tokens_to(x, a) + tokens_to(y, a),
    decreases y.len(),
{
    if y.len() == 0 {
        assert(x + y =~= x);
    } else {
        lemma_tokens_to_both(x, y.drop_last(), a);
        assert((x + y).drop_last() =~= x + y.drop_last());
        assert((x + y).last() == y.last());
    }
}

/// The amount that `releases` name for `a`: nothing where they do not name it.
pub open spec fn owed_to(releases: Seq<ReleaseView>, a: Seq<char>) -> int
    decreases releases.len(),
{
    if releases.len() == 0 {
        0
    } else {
        owed_to(releases.drop_last(), a) + (if releases.last().addr == a {
            releases.last().amount as int
        } else {
            0
        })
    }
}

/// The messages that pay out `releases` hand to every address what is named for it.
proof fn lemma_paid_as_owed(releases: Seq<ReleaseView>, denom: Seq<char>, a: Seq<char>)
    ensures
        tokens_to(send_msgs(releases, denom), a) == owed_to(releases, a),
        tokens_to(undelegate_msgs(releases, denom), a) == owed_to(releases, a),
    decreases releases.len(),
{
    if releases.len() > 0 {
        let before = releases.drop_last();
        let last = releases.last();
        lemma_paid_as_owed(before, denom, a);
        if last.amount > 0 {
            assert(send_msgs(releases, denom).drop_last() =~= send_msgs(before, denom));
            assert(undelegate_msgs(releases, denom).drop_last() =~= undelegate_msgs(before, denom));
        }
    }
}

/// Claims among which none is of `a` hold nothing for it.
proof fn lemma_none_of(s: Seq<ClaimView>, a: Seq<char>, v: bool)
    requires
        !has_claim_of(s, a),
    ensures
        group_sum(s, a, v) == 0,
{
    let zeros = amounts_for(s, a, v);
    assert forall|i: int| 0 <= i < zeros.len() implies zeros[i] == 0 by {
        assert(s[i].addr != a);
    }
    lemma_sum_linear(zeros, zeros, zeros, 1);
}

/// Releases that are grouped by address name for every address the sum of its claims.
proof fn lemma_owed_is_group(released: Seq<ClaimView>, v: bool, out: Seq<ReleaseView>, a: Seq<char>, n: int)
    requires
        groups(released, v, out),
        0 <= n <= out.len(),
    ensures
        owed_to(out.take(n), a) == (if exists|i: int| 0 <= i < n && (#[trigger] out[i]).addr == a {
            group_sum(released, a, v)
        } else {
            0
        }),
    decreases n,
{
    if n > 0 {
        lemma_owed_is_group(released, v, out, a, n - 1);
        assert(out.take(n).drop_last() =~= out.take(n - 1));
        assert(out.take(n).last() == out[n - 1]);
        if out[n - 1].addr == a {
            if exists|i: int| 0 <= i < n - 1 && (#[trigger] out[i]).addr == a {
                let i = choose|i: int| 0 <= i < n - 1 && (#[trigger] out[i]).addr == a;
                assert(addr_before(out[i].addr, out[n - 1].addr));
                crate::text::lemma_addr_before_irreflexive(a);
            }
        } else {
            if exists|i: int| 0 <= i < n && (#[trigger] out[i]).addr == a {
                let i = choose|i: int| 0 <= i < n && (#[trigger] out[i]).addr == a;
                assert(i < n - 1);
            }
        }
    } else {
        assert(out.take(0) =~= Seq::<ReleaseView>::empty());
    }
}

/// The release at the end of a block hands to every address what its claims
/// that were due held: what the engine held for the address is what it
/// holds for it afterwards and what the messages hand to it.
pub proof fn law_release_pays_what_it_takes(
    pre: &Stake,
    env: &Env,
    post: &Stake,
    r: Result<Response, ContractError>,
    a: Seq<char>,
)
    requires
        end_block_requires(pre, env),
        end_block_ensures(pre, env, post, r),
    ensures
        r.is_ok(),
        held_by(post, a) + tokens_to(r.unwrap()@.messages, a) == held_by(pre, a),
{
    let msgs = r.unwrap()@.messages;
    if pre.config.auto_return_limit > 0 {
        let p = mature(env.block.time.nanos);
        let limit = pre.config.auto_return_limit as int;
        let released = due_claims(pre, env);
        let denom = pre.config.denom@;
        let (liquid, vesting) = choose|liquid: Seq<ReleaseView>, vesting: Seq<ReleaseView>|
            groups(released, false, liquid) && groups(released, true, vesting) && msgs == #[trigger] send_msgs(
                liquid,
                denom,
            ) + #[trigger] undelegate_msgs(vesting, denom);
        lemma_tokens_to_both(send_msgs(liquid, denom), undelegate_msgs(vesting, denom), a);
        lemma_paid_as_owed(liquid, denom, a);
        lemma_paid_as_owed(vesting, denom, a);
        lemma_owed_is_group(released, false, liquid, a, liquid.len() as int);
        lemma_owed_is_group(released, true, vesting, a, vesting.len() as int);
        assert(liquid.take(liquid.len() as int) =~= liquid);
        assert(vesting.take(vesting.len() as int) =~= vesting);
        if !has_release_for(liquid, a) {
            assert(!has_claim_of(released, a)) by {
                if has_claim_of(released, a) {
                    let k = choose|k: int| 0 <= k < released.len() && (#[trigger] released[k]).addr == a;
                    assert(has_release_for(liquid, released[k].addr));
                }
            }
            lemma_none_of(released, a, false);
        }
        if !has_release_for(vesting, a) {
            assert(!has_claim_of(released, a)) by {
                if has_claim_of(released, a) {
                    let k = choose|k: int| 0 <= k < released.len() && (#[trigger] released[k]).addr == a;
                    assert(has_release_for(vesting, released[k].addr));
                }
            }
            lemma_none_of(released, a, true);
        }
        law_release_splits(pre.claims@, p, limit, a, false);
        law_release_splits(pre.claims@, p, limit, a, true);
    } else {
        assert(msgs =~= Seq::<MsgView>::empty());
    }
}

} // verus!
