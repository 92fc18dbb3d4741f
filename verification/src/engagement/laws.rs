//! What holds of the engagement engine over all states and inputs.

use crate::controllers::lemma_register_then_unregister;
use crate::decimal::{lemma_portion_bounds, Decimal, DECIMAL_FRACTIONAL};
use crate::engagement::contract::{
    execute_distribute_rewards_ensures, execute_distribute_rewards_requires, shares_to_divide, undistributed,
    execute_add_hook_ensures, execute_delegate_withdrawal_ensures, execute_ensures, execute_requires,
    execute_remove_hook_ensures, execute_slash_ensures, slashed_points, sudo_ensures, sudo_requires,
    withdrawable_in,
};
use crate::engagement::msg::{ExecuteMsg, SudoMsg};
use crate::engagement::state::{
    adjustment_of, delegated_to, entitlement, halved, lemma_withdrawable, lemma_withdrawable_within_total,
    shares_measure, withdrawable_measure, withdrawn_measure, Adjustments, Engagement, SHARES_UNIT,
};
use crate::error::ContractError;
use crate::members::{lookup, points_or_zero};
use crate::types::{lemma_nothing_out, lemma_one_out, tokens_out, Env, MessageInfo, Response};
use vstd::arithmetic::div_mod::lemma_fundamental_div_mod;
use vstd::arithmetic::div_mod::lemma_fundamental_div_mod_converse;
use vstd::prelude::*;

verus! {

/// The points of the members of a well-formed engine sum to its total.
pub proof fn law_points_sum_to_total(state: &Engagement)
    requires
        state.wf(),
    ensures
        state.members.sum_of_points() == state.members@.total,
{
}

/// No operation lowers the total of the tokens ever distributed.
pub proof fn law_distributed_total_never_falls(
    pre: &Engagement,
    env: &Env,
    info: &MessageInfo,
    msg: ExecuteMsg,
    balance: u128,
    post: &Engagement,
    r: Result<Response, ContractError>,
)
    requires
        execute_ensures(pre, env, info, msg, balance, post, r),
    ensures
        post.distribution.distributed_total >= pre.distribution.distributed_total,
{
}

/// Nothing that the host asks for lowers the total of the tokens ever distributed.
pub proof fn law_distributed_total_survives_sudo(
    pre: &Engagement,
    env: &Env,
    msg: SudoMsg,
    post: &Engagement,
    r: Result<Response, ContractError>,
)
    requires
        sudo_ensures(pre, env, msg, post, r),
    ensures
        post.distribution.distributed_total >= pre.distribution.distributed_total,
{
}

/// The tokens that can be withdrawn stay covered by the balance: where the
/// engine's balance held at least the withdrawable tokens before an
/// operation, it still does when the messages of the operation have been
/// carried out. A failed operation changes nothing.
pub proof fn law_withdrawable_stays_covered(
    pre: &Engagement,
    env: &Env,
    info: &MessageInfo,
    msg: ExecuteMsg,
    balance: u128,
    post: &Engagement,
    r: Result<Response, ContractError>,
)
    requires
        execute_requires(pre, env, info, msg, balance),
        execute_ensures(pre, env, info, msg, balance, post, r),
        pre.distribution.withdrawable_total <= balance,
    ensures
        r.is_ok() ==> post.distribution.withdrawable_total + tokens_out(r.unwrap()@.messages) <= balance,
        r.is_err() ==> *post == *pre,
{
    if r.is_ok() {
        let msgs = r.unwrap()@.messages;
        match msg {
            ExecuteMsg::WithdrawRewards { owner, receiver } => {
                if msgs.len() > 0 {
                    lemma_one_out(msgs[0]);
                    assert(msgs =~= seq![msgs[0]]);
                } else {
                    lemma_nothing_out(msgs);
                }
            },
            _ => {
                lemma_nothing_out(msgs);
            },
        }
    }
}

/// For every address on record, what it can withdraw and what it has
/// withdrawn make up what its points and its correction have earned: the
/// shares, shifted down to tokens. It can never withdraw a negative amount.
pub proof fn law_withdrawable_plus_withdrawn(state: &Engagement, addr: Seq<char>)
    requires
        state.wf(),
        state.solvent(),
        state.adjust().contains_key(addr),
    ensures
        withdrawable_in(state, addr) + state.adjust()[addr].withdrawn_rewards == entitlement(
            state.distribution.shares_per_point,
            points_or_zero(lookup(state.members@.points, addr)),
            state.adjust()[addr].shares_correction,
        ) / (SHARES_UNIT as int),
        withdrawable_in(state, addr) >= 0,
{
    lemma_withdrawable(
        state.distribution.shares_per_point,
        points_or_zero(lookup(state.members@.points, addr)),
        state.adjust()[addr],
    );
}

/// What all addresses together can withdraw is at most the total of the
/// withdrawable tokens. The total holds no more beyond that than the shares
/// left over and less than one token for each address on record.
pub proof fn law_withdrawable_sums_to_total(state: &Engagement)
    requires
        state.wf(),
        state.solvent(),
    ensures
        state.adjustments.total(
            withdrawable_measure(state.distribution.shares_per_point, state.members@.points),
        ) <= state.distribution.withdrawable_total,
        (state.distribution.withdrawable_total - state.adjustments.total(
            withdrawable_measure(state.distribution.shares_per_point, state.members@.points),
        )) * SHARES_UNIT <= state.distribution.shares_leftover + state.adjustments.entries@.len() * (SHARES_UNIT
            - 1),
{
    lemma_withdrawable_within_total(state);
}

/// Right after a distribution, where no more addresses are on record than
/// there are points, the total of the withdrawable tokens holds fewer tokens
/// beyond what the addresses can withdraw than there are points.
pub proof fn law_gap_after_distribution(
    pre: &Engagement,
    env: &Env,
    info: &MessageInfo,
    sender: Option<String>,
    balance: u128,
    post: &Engagement,
    r: Result<Response, ContractError>,
)
    requires
        execute_distribute_rewards_requires(pre, env, info, sender, balance),
        execute_distribute_rewards_ensures(pre, env, info, sender, balance, post, r),
        pre.members@.total > 0,
        undistributed(pre, balance) > 0,
        post.adjustments.entries@.len() <= post.members@.total,
    ensures
        post.distribution.withdrawable_total - post.adjustments.total(
            withdrawable_measure(post.distribution.shares_per_point, post.members@.points),
        ) < post.members@.total,
{
    lemma_withdrawable_within_total(post);
    let gap = post.distribution.withdrawable_total - post.adjustments.total(
        withdrawable_measure(post.distribution.shares_per_point, post.members@.points),
    );
    let t = post.members@.total;
    let n = post.adjustments.entries@.len() as int;
    let left = post.distribution.shares_leftover as int;
    let u = SHARES_UNIT as int;
    assert(left < t) by {
        vstd::arithmetic::div_mod::lemma_mod_bound(shares_to_divide(pre, balance), t);
    }
    assert(gap < t) by (nonlinear_arith)
        requires
            gap * u <= left + n * (u - 1),
            left < t,
            n <= t,
            u > 1,
    ;
}

/// The tokens withdrawn and the tokens withdrawable are the tokens ever
/// distributed, and the shares earned and left over are their shares.
pub proof fn law_books_balance(state: &Engagement)
    requires
        state.wf(),
        state.solvent(),
    ensures
        state.adjustments.total(withdrawn_measure()) + state.distribution.withdrawable_total
            == state.distribution.distributed_total,
        state.adjustments.total(shares_measure(state.distribution.shares_per_point, state.members@.points))
            + state.distribution.shares_leftover == state.distribution.distributed_total * SHARES_UNIT,
{
}

/// The points that are left of `p` after `k` halvings.
pub open spec fn halved_times(p: u64, k: nat) -> u64
    decreases k,
{
    if k == 0 {
        p
    } else {
        halved(halved_times(p, (k - 1) as nat))
    }
}

/// Two to the power of `k`.
pub open spec fn pow2(k: nat) -> int
    decreases k,
{
    if k == 0 {
        1
    } else {
        2 * pow2((k - 1) as nat)
    }
}

/// `a` divided by `b`, rounded up.
pub open spec fn ceil_div(a: int, b: int) -> int {
    (a + b - 1) / b
}

/// Powers of two are positive.
pub proof fn lemma_pow2_positive(k: nat)
    ensures
        pow2(k) >= 1,
    decreases k,
{
    if k > 0 {
        lemma_pow2_positive((k - 1) as nat);
    }
}

/// Rounding up after dividing by `b` and then by two is rounding up after dividing by `2 * b`.
pub proof fn lemma_ceil_div_twice(a: int, b: int)
    requires
        a >= 0,
        b >= 1,
    ensures
        ceil_div(ceil_div(a, b), 2) == ceil_div(a, 2 * b),
{
    let d = 2 * b;
    let q = a / d;
    let r = a % d;
    lemma_fundamental_div_mod(a, d);
    assert(a == d * q + r && 0 <= r < d) by (nonlinear_arith)
        requires
            a == d * (a / d) + (a % d),
            q == a / d,
            r == a % d,
            d > 0,
            a >= 0,
    ;
    let (c, rem1): (int, int) = if r == 0 {
        (2 * q, b - 1)
    } else if r <= b {
        (2 * q + 1, r - 1)
    } else {
        (2 * q + 2, r - b - 1)
    };
    assert(a + b - 1 == c * b + rem1) by (nonlinear_arith)
        requires
            a == (2 * b) * q + r,
            (r == 0 && c == 2 * q && rem1 == b - 1) || (0 < r <= b && c == 2 * q + 1 && rem1 == r - 1) || (r > b
                && c == 2 * q + 2 && rem1 == r - b - 1),
    ;
    lemma_fundamental_div_mod_converse(a + b - 1, b, c, rem1);
    let (top, rem2): (int, int) = if r == 0 {
        (q, 2 * b - 1)
    } else {
        (q + 1, r - 1)
    };
    assert(a + d - 1 == top * d + rem2) by (nonlinear_arith)
        requires
            a == d * q + r,
            (r == 0 && top == q && rem2 == d - 1) || (r > 0 && top == q + 1 && rem2 == r - 1),
    ;
    lemma_fundamental_div_mod_converse(a + d - 1, d, top, rem2);
    let rem3: int = if r == 0 {
        1
    } else if r <= b {
        0
    } else {
        1
    };
    assert(c + 2 - 1 == top * 2 + rem3);
    lemma_fundamental_div_mod_converse(c + 2 - 1, 2, top, rem3);
}

/// One halving leaves half of the points, rounded up.
pub proof fn lemma_halved_is_half_rounded_up(p: u64)
    ensures
        halved(p) == ceil_div(p as int, 2),
        halved(p) == p <==> p <= 1,
{
    let x = p as int;
    let h = x / 2;
    let r = x % 2;
    lemma_fundamental_div_mod(x, 2);
    if r == 0 {
        lemma_fundamental_div_mod_converse(x + 1, 2, h, 1);
    } else {
        lemma_fundamental_div_mod_converse(x + 1, 2, h + 1, 0);
    }
}

/// After `k` halvings a member that began with `p` points has `p` divided by
/// two to the power of `k`, rounded up. A member with at most one point
/// keeps it, and no other member keeps what it has.
pub proof fn law_halved_times(p: u64, k: nat)
    ensures
        halved_times(p, k) == ceil_div(p as int, pow2(k)),
        p <= 1 ==> halved_times(p, k) == p,
    decreases k,
{
    lemma_pow2_positive(k);
    if k == 0 {
        lemma_fundamental_div_mod_converse(p as int, 1, p as int, 0);
    } else {
        let before = halved_times(p, (k - 1) as nat);
        law_halved_times(p, (k - 1) as nat);
        lemma_pow2_positive((k - 1) as nat);
        lemma_halved_is_half_rounded_up(before);
        lemma_ceil_div_twice(p as int, pow2((k - 1) as nat));
    }
}

/// A hook that is registered and then removed leaves the hooks as they were.
pub proof fn law_add_then_remove_hook(
    s0: &Engagement,
    s1: &Engagement,
    s2: &Engagement,
    adder: &MessageInfo,
    remover: &MessageInfo,
    hook: String,
    r1: Result<Response, ContractError>,
    r2: Result<Response, ContractError>,
)
    requires
        execute_add_hook_ensures(s0, adder, hook, s1, r1),
        execute_remove_hook_ensures(s1, remover, hook, s2, r2),
        r1.is_ok(),
        r2.is_ok(),
    ensures
        s2.hooks@ == s0.hooks@,
{
    lemma_register_then_unregister(s0.hooks@, hook@);
}

/// An address that names another to withdraw in its place and then names
/// again the one it had named before has the adjustment that it had.
pub proof fn law_delegate_and_back(adjust: Adjustments, sender: Seq<char>, other: Seq<char>)
    ensures
        ({
            let first = adjustment_of(adjust, sender).delegated;
            let back = delegated_to(delegated_to(adjust, sender, other), sender, first);
            &&& adjustment_of(back, sender) == adjustment_of(adjust, sender)
            &&& adjust.contains_key(sender) ==> back == adjust
            &&& forall|a: Seq<char>| a != sender ==> back.contains_key(a) == adjust.contains_key(a) && (
            adjust.contains_key(a) ==> back[a] == adjust[a])
        }),
{
    let first = adjustment_of(adjust, sender).delegated;
    let back = delegated_to(delegated_to(adjust, sender, other), sender, first);
    if adjust.contains_key(sender) {
        assert(back =~= adjust);
    }
}

/// The same of the operation: after two delegations, the second to the
/// address named at first, the adjustment of the sender is what it was.
pub proof fn law_delegate_withdrawal_and_back(
    s0: &Engagement,
    s1: &Engagement,
    s2: &Engagement,
    info: &MessageInfo,
    other: String,
    first: String,
    r1: Result<Response, ContractError>,
    r2: Result<Response, ContractError>,
)
    requires
        execute_delegate_withdrawal_ensures(s0, info, other, s1, r1),
        execute_delegate_withdrawal_ensures(s1, info, first, s2, r2),
        first@ == adjustment_of(s0.adjust(), info.sender@).delegated,
    ensures
        adjustment_of(s2.adjust(), info.sender@) == adjustment_of(s0.adjust(), info.sender@),
        s2.members == s0.members,
        s2.distribution == s0.distribution,
{
    law_delegate_and_back(s0.adjust(), info.sender@, other@);
}

/// A slash by nothing leaves the points as they are, and a slash by one leaves none.
pub proof fn law_slash_bounds(points: u64, portion: Decimal)
    requires
        portion.atomics <= DECIMAL_FRACTIONAL,
    ensures
        0 <= slashed_points(points, portion) <= points,
        portion.atomics == 0 ==> slashed_points(points, portion) == points,
        portion.atomics == DECIMAL_FRACTIONAL ==> slashed_points(points, portion) == 0,
{
    lemma_portion_bounds(points as u128, portion);
}

/// A slash by nothing changes neither the points nor the total nor what any
/// address has earned; a slash by more than one fails and changes nothing.
pub proof fn law_slash_by_nothing(
    pre: &Engagement,
    env: &Env,
    info: &MessageInfo,
    addr: String,
    portion: Decimal,
    post: &Engagement,
    r: Result<Response, ContractError>,
)
    requires
        pre.wf(),
        execute_slash_ensures(pre, env, info, addr, portion, post, r),
        pre.slashers@.contains(info.sender@),
        pre.members@.points.contains_key(addr@),
    ensures
        portion.atomics == 0 ==> r.is_ok() && post.members@.points == pre.members@.points && post.members@.total
            == pre.members@.total && adjustment_of(post.adjust(), addr@) == adjustment_of(pre.adjust(), addr@),
        portion.atomics == DECIMAL_FRACTIONAL ==> r.is_ok() && post.members@.points[addr@] == 0,
        portion.atomics > DECIMAL_FRACTIONAL ==> r == Err::<Response, ContractError>(ContractError::InvalidPortion)
            && *post == *pre,
{
    let points = pre.members@.points[addr@];
    if portion.atomics <= DECIMAL_FRACTIONAL {
        lemma_portion_bounds(points as u128, portion);
        if portion.atomics == 0 {
            assert(post.members@.points =~= pre.members@.points);
            let spp = pre.distribution.shares_per_point;
            assert(spp * 0 == 0) by (nonlinear_arith);
        }
    }
}

/// An operation that fails leaves the state as it found it.
pub proof fn law_failure_changes_nothing(
    pre: &Engagement,
    env: &Env,
    info: &MessageInfo,
    msg: ExecuteMsg,
    balance: u128,
    post: &Engagement,
    r: Result<Response, ContractError>,
)
    requires
        execute_requires(pre, env, info, msg, balance),
        execute_ensures(pre, env, info, msg, balance, post, r),
        r.is_err(),
    ensures
        *post == *pre,
{
}

/// What the host asks for and fails leaves the state as it was.
pub proof fn law_failed_sudo_changes_nothing(
    pre: &Engagement,
    env: &Env,
    msg: SudoMsg,
    post: &Engagement,
    r: Result<Response, ContractError>,
)
    requires
        sudo_requires(pre, env, msg),
        sudo_ensures(pre, env, msg, post, r),
        r.is_err(),
    ensures
        *post == *pre,
{
}

} // verus!
