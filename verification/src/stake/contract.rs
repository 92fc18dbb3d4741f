//! The operations of the stake engine.

use crate::controllers::{opt_text, unregistered, update_admin_response, Admin, Hooks, Preauth, Slashers};
use crate::decimal::{lemma_portion_bounds, portion_of, share_of, validate_portion, Decimal, DECIMAL_FRACTIONAL};
use crate::error::ContractError;
use crate::keyed::{seq_sum, AddrMap};
use crate::members::{lookup, points_at, Members};
use crate::stake::claim::{
    create_fits, groups, groups_fit, kept, liquid_sum, listed_of, mature, mature_of, slash_amounts,
    slash_fits, slashed_claims, taken, vesting_sum, Claim, ClaimView, Claims, ReleaseView, held_for,
    claim_added,
};
use crate::stake::msg::{
    ClaimsResponse, ExecuteMsg, InstantiateMsg, MemberListResponse, MemberResponse, MigrateMsg,
    PrivilegeChangeMsg, QueryMsg, QueryResponse, StakedResponse, SudoMsg, TotalPointsResponse,
    UnbondingPeriodResponse,
};
use crate::stake::state::{membership_msgs, membership_updated, points_fit, points_for, staked, Config, Stake};
use crate::time::Duration;
use crate::types::{
    attr_view, coin, coin_text, decimal_text, empty_response, lemma_views_push, number_text, views,
    AttributeView, Coin, CoinView, DiffView, Env, Member, MemberDiff, MessageInfo, Msg, MsgView, Privilege,
    Response, ResponseView, NANOS_PER_SECOND,
};
use vstd::prelude::*;

verus! {

/// Sets up the engine that `msg` describes: no stake, no members, no claims.
/// A least bond of zero counts as one.
pub fn instantiate(env: &Env, msg: InstantiateMsg) -> (r: Result<(Stake, Response), ContractError>)
    requires
        msg.tokens_per_point >= 1,
    ensures
        r.is_ok(),
        r.unwrap().1@ == empty_response(),
        r.unwrap().0.wf(),
        r.unwrap().0.membership_consistent(),
        r.unwrap().0.admin@ == opt_text(msg.admin),
        r.unwrap().0.hooks@ == Seq::<Seq<char>>::empty(),
        r.unwrap().0.slashers@ == Seq::<Seq<char>>::empty(),
        r.unwrap().0.preauth_hooks.count == msg.preauths_hooks,
        r.unwrap().0.preauth_slashing.count == msg.preauths_slashing,
        r.unwrap().0.config.denom@ == msg.denom@,
        r.unwrap().0.config.tokens_per_point == msg.tokens_per_point,
        r.unwrap().0.config.min_bond == (if msg.min_bond == 0 {
            1
        } else {
            msg.min_bond
        }),
        r.unwrap().0.config.unbonding_period.secs == msg.unbonding_period,
        r.unwrap().0.config.auto_return_limit == msg.auto_return_limit,
        r.unwrap().0.members@.points == Map::<Seq<char>, u64>::empty(),
        r.unwrap().0.members@.total == 0,
        r.unwrap().0.stake@ == Map::<Seq<char>, u128>::empty(),
        r.unwrap().0.stake_vesting@ == Map::<Seq<char>, u128>::empty(),
        r.unwrap().0.claims@ == Seq::<ClaimView>::empty(),
{
    let min_bond = if msg.min_bond == 0 {
        1
    } else {
        msg.min_bond
    };
    let state = Stake {
        admin: Admin::new(msg.admin),
        hooks: Hooks::new(),
        preauth_hooks: Preauth::new(msg.preauths_hooks),
        preauth_slashing: Preauth::new(msg.preauths_slashing),
        slashers: Slashers::new(),
        config: Config {
            denom: msg.denom,
            tokens_per_point: msg.tokens_per_point,
            min_bond,
            unbonding_period: Duration::new(msg.unbonding_period),
            auto_return_limit: msg.auto_return_limit,
        },
        members: Members::new(),
        stake: AddrMap::new(),
        stake_vesting: AddrMap::new(),
        claims: Claims::new("claims", "claims__release"),
    };
    Ok((state, Response::new()))
}

/// What is wrong with funds.
pub enum FundsError {
    /// The one coin is of another denom.
    MissingDenom,
    /// There is more than one coin.
    ExtraDenoms,
}

/// The amount that `funds` hold of `denom`: nothing for no coin, the amount
/// of a single coin of that denom; anything else is an error.
pub open spec fn funds_amount(funds: Seq<CoinView>, denom: Seq<char>) -> Result<u128, FundsError> {
    if funds.len() == 0 {
        Ok(0)
    } else if funds.len() == 1 {
        if funds[0].denom == denom {
            Ok(funds[0].amount)
        } else {
            Err(FundsError::MissingDenom)
        }
    } else {
        Err(FundsError::ExtraDenoms)
    }
}

/// The error `e` is the one of the engine that stands for `f`, and names `denom`.
pub open spec fn is_funds_error(e: ContractError, f: FundsError, denom: Seq<char>) -> bool {
    match f {
        FundsError::MissingDenom => e matches ContractError::MissingDenom(d) && d@ == denom,
        FundsError::ExtraDenoms => e matches ContractError::ExtraDenoms(d) && d@ == denom,
    }
}

/// Accepts funds of at most one coin, which must be of `stake_denom`, and returns the amount.
pub fn validate_funds(funds: &Vec<Coin>, stake_denom: &String) -> (r: Result<u128, ContractError>)
    ensures
        match funds_amount(views(funds@), stake_denom@) {
            Ok(a) => r == Ok::<u128, ContractError>(a),
            Err(f) => r.is_err() && is_funds_error(r.unwrap_err(), f, stake_denom@),
        },
{
    if funds.len() == 0 {
        Ok(0)
    } else if funds.len() == 1 {
        if funds[0].denom == *stake_denom {
            assert(views(funds@)[0] == funds@[0]@);
            Ok(funds[0].amount)
        } else {
            assert(views(funds@)[0] == funds@[0]@);
            Err(ContractError::MissingDenom(stake_denom.clone()))
        }
    } else {
        Err(ContractError::ExtraDenoms(stake_denom.clone()))
    }
}

/// The points that a stake of `stake` tokens gives under the settings `cfg`.
pub fn calc_points(stake: u128, cfg: &Config) -> (r: Option<u64>)
    requires
        cfg.tokens_per_point >= 1,
        points_fit(stake as int, cfg.tokens_per_point, cfg.min_bond),
    ensures
        r == points_for(stake as int, cfg.tokens_per_point, cfg.min_bond),
        r is None <==> stake < cfg.min_bond,
        r is Some ==> r->0 == stake / cfg.tokens_per_point,
{
    if stake < cfg.min_bond {
        None
    } else {
        let p = stake / cfg.tokens_per_point;
        Some(p as u64)
    }
}

/// The membership of `sender` can be brought in line with a stake of `new_stake` tokens.
pub open spec fn membership_fits(state: &Stake, sender: Seq<char>, new_stake: int, height: u64) -> bool {
    &&& points_fit(new_stake, state.config.tokens_per_point, state.config.min_bond)
    &&& membership_updated(
        state.members@,
        sender,
        points_for(new_stake, state.config.tokens_per_point, state.config.min_bond),
        height,
    ).total <= u64::MAX
}

/// Gives `sender` the points that a stake of `new_stake` tokens stands for,
/// and returns what the hooks are told: one message each, where the points changed.
pub fn update_membership(state: &mut Stake, sender: String, new_stake: u128, height: u64) -> (r: Vec<Msg>)
    requires
        old(state).wf(),
        membership_fits(old(state), sender@, new_stake as int, height),
    ensures
        final(state).wf(),
        final(state).members@ == membership_updated(
            old(state).members@,
            sender@,
            points_for(new_stake as int, old(state).config.tokens_per_point, old(state).config.min_bond),
            height,
        ),
        views(r@) == membership_msgs(
            old(state).hooks@,
            old(state).members@,
            sender@,
            points_for(new_stake as int, old(state).config.tokens_per_point, old(state).config.min_bond),
        ),
        lookup(final(state).members@.points, sender@) == points_for(
            new_stake as int,
            old(state).config.tokens_per_point,
            old(state).config.min_bond,
        ),
        forall|a: Seq<char>| a != sender@ ==> lookup(final(state).members@.points, a) == lookup(
            old(state).members@.points,
            a,
        ),
        final(state).same_registries(old(state)),
        final(state).stake == old(state).stake,
        final(state).stake_vesting == old(state).stake_vesting,
        final(state).claims == old(state).claims,
{
    let new = calc_points(new_stake, &state.config);
    let old = state.members.may_load(&sender);
    if new == old {
        let none: Vec<Msg> = Vec::new();
        assert(views(none@) =~= Seq::<MsgView>::empty());
        return none;
    }
    state.members.set(&sender, new, height);
    let diff = MemberDiff::new(sender, old, new);
    let mut diffs: Vec<MemberDiff> = Vec::new();
    diffs.push(diff);
    assert(views(diffs@) =~= seq![DiffView { key: sender@, old, new }]);
    state.hooks.prepare_hooks(&diffs)
}

/// The vesting tokens that a bond names: none where it names no coin.
pub open spec fn vesting_funds(vesting_tokens: Option<Coin>, denom: Seq<char>) -> Result<u128, FundsError> {
    match vesting_tokens {
        Some(v) => funds_amount(seq![v@], denom),
        None => Ok(0),
    }
}

/// What a bond reports.
pub open spec fn bond_response(
    amount: u128,
    vesting: u128,
    sender: Seq<char>,
    denom: Seq<char>,
    hook_messages: Seq<MsgView>,
) -> ResponseView {
    let first = seq![
        attr_view("action"@, "bond"@),
        attr_view("amount"@, decimal_text(amount as nat)),
        attr_view("sender"@, sender),
    ];
    if vesting > 0 {
        ResponseView {
            attributes: first.push(attr_view("vesting_amount"@, decimal_text(vesting as nat))),
            messages: seq![MsgView::Delegate { funds: CoinView { denom, amount: vesting }, staker: sender }]
                + hook_messages,
            events: Seq::empty(),
        }
    } else {
        ResponseView { attributes: first, messages: hook_messages, events: Seq::empty() }
    }
}

/// The sums of a bond of `amount` liquid and `vesting` vesting tokens fit,
/// and so does the membership that follows.
pub open spec fn bond_fits(state: &Stake, sender: Seq<char>, amount: u128, vesting: u128, height: u64) -> bool {
    &&& amount + vesting <= u128::MAX
    &&& staked(state.stake@, sender) + amount <= u128::MAX
    &&& staked(state.stake_vesting@, sender) + vesting <= u128::MAX
    &&& state.bonded(sender) + amount + vesting <= u128::MAX
    &&& membership_fits(state, sender, state.bonded(sender) + amount + vesting, height)
}

/// The states and inputs on which `execute_bond` may be called.
pub open spec fn execute_bond_requires(
    state: &Stake,
    env: &Env,
    info: &MessageInfo,
    vesting_tokens: Option<Coin>,
) -> bool {
    &&& state.wf()
    &&& match (
        funds_amount(views(info.funds@), state.config.denom@),
        vesting_funds(vesting_tokens, state.config.denom@),
    ) {
        (Ok(a), Ok(v)) => a + v > 0 ==> bond_fits(state, info.sender@, a, v, env.block.height),
        _ => true,
    }
}

/// What `execute_bond` returns and how it leaves the state `post` that it found as `pre`.
pub open spec fn execute_bond_ensures(
    pre: &Stake,
    env: &Env,
    info: &MessageInfo,
    vesting_tokens: Option<Coin>,
    post: &Stake,
    r: Result<Response, ContractError>,
) -> bool {
    &&& post.wf()
    &&& post.same_registries(pre)
    &&& post.claims == pre.claims
    &&& match (
        funds_amount(views(info.funds@), pre.config.denom@),
        vesting_funds(vesting_tokens, pre.config.denom@),
    ) {
        (Err(f), _) => r.is_err() && is_funds_error(r.unwrap_err(), f, pre.config.denom@) && *post == *pre,
        (Ok(_), Err(f)) => r.is_err() && is_funds_error(r.unwrap_err(), f, pre.config.denom@)
            && *post == *pre,
        (Ok(a), Ok(v)) => if a + v == 0 {
            r == Err::<Response, ContractError>(ContractError::NoFunds) && *post == *pre
        } else {
            let who = info.sender@;
            let points = points_for(
                pre.bonded(who) + a + v,
                pre.config.tokens_per_point,
                pre.config.min_bond,
            );
            &&& r.is_ok()
            &&& post.stake@ == pre.stake@.insert(
                who,
                (staked(pre.stake@, who) + a) as u128,
            )
            &&& post.stake_vesting@ == pre.stake_vesting@.insert(
                who,
                (staked(pre.stake_vesting@, who) + v) as u128,
            )
            &&& post.members@ == membership_updated(pre.members@, who, points, env.block.height)
            &&& lookup(post.members@.points, who) == points
            &&& r.unwrap()@ == bond_response(
                a,
                v,
                who,
                pre.config.denom@,
                membership_msgs(pre.hooks@, pre.members@, who, points),
            )
        },
    }
}

/// Bonds the funds that came with the message and the vesting tokens that it
/// names: both are added to the stake of the sender, whose points follow.
pub fn execute_bond(state: &mut Stake, env: &Env, info: &MessageInfo, vesting_tokens: Option<Coin>) -> (r: Result<
    Response,
    ContractError,
>)
    requires
        execute_bond_requires(old(state), env, info, vesting_tokens),
    ensures
        execute_bond_ensures(old(state), env, info, vesting_tokens, final(state), r),
{
    let amount = match validate_funds(&info.funds, &state.config.denom) {
        Ok(a) => a,
        Err(e) => {
            return Err(e);
        },
    };
    let vesting_amount = match vesting_tokens {
        Some(v) => {
            let mut one: Vec<Coin> = Vec::new();
            one.push(v);
            assert(views(one@) =~= seq![v@]);
            match validate_funds(&one, &state.config.denom) {
                Ok(a) => a,
                Err(e) => {
                    return Err(e);
                },
            }
        },
        None => 0,
    };
    if amount == 0 && vesting_amount == 0 {
        return Err(ContractError::NoFunds);
    }
    let old_stake = match state.stake.get(&info.sender) {
        Some(s) => *s,
        None => 0,
    };
    let new_stake = old_stake + amount;
    state.stake.insert(info.sender.clone(), new_stake);
    let mut res = Response::new();
    res.add_attribute_str("action", "bond");
    res.add_attribute("amount", number_text(amount));
    res.add_attribute("sender", info.sender.clone());
    let old_vesting = match state.stake_vesting.get(&info.sender) {
        Some(s) => *s,
        None => 0,
    };
    let new_vesting_stake = old_vesting + vesting_amount;
    state.stake_vesting.insert(info.sender.clone(), new_vesting_stake);
    if vesting_amount > 0 {
        res.add_message(
            Msg::Delegate { funds: coin(vesting_amount, &state.config.denom), staker: info.sender.clone() },
        );
        res.add_attribute("vesting_amount", number_text(vesting_amount));
    }
    let msgs = update_membership(state, info.sender.clone(), new_stake + new_vesting_stake, env.block.height);
    res.add_messages(msgs);
    proof {
        let who = info.sender@;
        let points = points_for(
            old(state).bonded(who) + amount + vesting_amount,
            old(state).config.tokens_per_point,
            old(state).config.min_bond,
        );
        let want = bond_response(
            amount,
            vesting_amount,
            who,
            old(state).config.denom@,
            membership_msgs(old(state).hooks@, old(state).members@, who, points),
        );
        assert(res@.attributes =~= want.attributes);
        assert(res@.messages =~= want.messages);
    }
    Ok(res)
}

/// The liquid tokens that an unbonding of `amount` tokens takes from a liquid stake of `stake`.
pub open spec fn liquid_part(stake: u128, amount: u128) -> u128 {
    if amount <= stake {
        amount
    } else {
        stake
    }
}

/// The vesting tokens that it takes: what the liquid stake does not cover.
pub open spec fn vesting_part(stake: u128, amount: u128) -> u128 {
    if amount <= stake {
        0
    } else {
        (amount - stake) as u128
    }
}

/// What an unbonding reports.
pub open spec fn unbond_response(
    amount: u128,
    denom: Seq<char>,
    sender: Seq<char>,
    completion: u64,
    hook_messages: Seq<MsgView>,
) -> ResponseView {
    ResponseView {
        attributes: seq![
            attr_view("action"@, "unbond"@),
            attr_view("amount"@, decimal_text(amount as nat)),
            attr_view("denom"@, denom),
            attr_view("sender"@, sender),
            attr_view("completion_time"@, decimal_text(completion as nat)),
        ],
        messages: hook_messages,
        events: Seq::empty(),
    }
}

/// The time of release and the claim of an unbonding can be computed, and so
/// can the membership that follows.
pub open spec fn unbond_fits(state: &Stake, env: &Env, sender: Seq<char>, amount: u128) -> bool {
    let stake = staked(state.stake@, sender);
    let vesting = staked(state.stake_vesting@, sender);
    &&& state.config.unbonding_period.fits_after(env.block.time)
    &&& create_fits(
        state.claims@,
        sender,
        (env.block.time.nanos + state.config.unbonding_period.secs * NANOS_PER_SECOND) as u64,
        liquid_part(stake, amount),
        vesting_part(stake, amount),
    )
    &&& state.bonded(sender) - amount <= u128::MAX
    &&& membership_fits(state, sender, state.bonded(sender) - amount, env.block.height)
}

/// The states and inputs on which `execute_unbond` may be called.
pub open spec fn execute_unbond_requires(
    state: &Stake,
    env: &Env,
    info: &MessageInfo,
    amount: u128,
    denom: String,
) -> bool {
    &&& state.wf()
    &&& amount > 0 && denom@ == state.config.denom@ && vesting_part(
        staked(state.stake@, info.sender@),
        amount,
    ) <= staked(state.stake_vesting@, info.sender@) ==> unbond_fits(
        state,
        env,
        info.sender@,
        amount,
    )
}

/// What `execute_unbond` returns and how it leaves the state `post` that it found as `pre`.
pub open spec fn execute_unbond_ensures(
    pre: &Stake,
    env: &Env,
    info: &MessageInfo,
    amount: u128,
    denom: String,
    post: &Stake,
    r: Result<Response, ContractError>,
) -> bool {
    &&& post.wf()
    &&& post.same_registries(pre)
    &&& ({
        let who = info.sender@;
        let stake = staked(pre.stake@, who);
        let vesting = staked(pre.stake_vesting@, who);
        if amount == 0 {
            r == Err::<Response, ContractError>(ContractError::ZeroAmount) && *post == *pre
        } else if denom@ != pre.config.denom@ {
            r == Err::<Response, ContractError>(ContractError::InvalidDenom) && *post == *pre
        } else if vesting_part(stake, amount) > vesting {
            r == Err::<Response, ContractError>(
                ContractError::Overflow { minuend: vesting, subtrahend: vesting_part(stake, amount) },
            ) && *post == *pre
        } else {
            let points = points_for(
                pre.bonded(who) - amount,
                pre.config.tokens_per_point,
                pre.config.min_bond,
            );
            let completion = (env.block.time.nanos + pre.config.unbonding_period.secs
                * NANOS_PER_SECOND) as u64;
            &&& r.is_ok()
            &&& post.stake@ == pre.stake@.insert(who, (stake - liquid_part(stake, amount)) as u128)
            &&& post.stake_vesting@ == pre.stake_vesting@.insert(
                who,
                (vesting - vesting_part(stake, amount)) as u128,
            )
            &&& claim_added(
                pre.claims@,
                post.claims@,
                ClaimView {
                    addr: who,
                    amount: liquid_part(stake, amount),
                    vesting_amount: Some(vesting_part(stake, amount)),
                    release_at: completion,
                    creation_height: env.block.height,
                },
            )
            &&& held_for(post.claims@, who) == held_for(pre.claims@, who) + amount
            &&& post.members@ == membership_updated(pre.members@, who, points, env.block.height)
            &&& lookup(post.members@.points, who) == points
            &&& r.unwrap()@ == unbond_response(
                amount,
                denom@,
                who,
                completion,
                membership_msgs(pre.hooks@, pre.members@, who, points),
            )
        }
    })
}

/// Unbonds `amount` tokens of the sender's stake, the liquid stake first and
/// the vesting stake for the rest, and gives the sender a claim on them that
/// matures when the unbonding period is over. The points of the sender follow.
pub fn execute_unbond(state: &mut Stake, env: &Env, info: &MessageInfo, amount: u128, denom: String) -> (r: Result<
    Response,
    ContractError,
>)
    requires
        execute_unbond_requires(old(state), env, info, amount, denom),
    ensures
        execute_unbond_ensures(old(state), env, info, amount, denom, final(state), r),
{
    if amount == 0 {
        return Err(ContractError::ZeroAmount);
    }
    if state.config.denom != denom {
        return Err(ContractError::InvalidDenom);
    }
    let stake = match state.stake.get(&info.sender) {
        Some(s) => *s,
        None => 0,
    };
    let vesting = match state.stake_vesting.get(&info.sender) {
        Some(s) => *s,
        None => 0,
    };
    let new_stake = if amount <= stake {
        stake - amount
    } else {
        0
    };
    let vesting_amount = if amount <= stake {
        0
    } else {
        amount - stake
    };
    if vesting_amount > vesting {
        return Err(ContractError::Overflow { minuend: vesting, subtrahend: vesting_amount });
    }
    let new_vesting_stake = vesting - vesting_amount;
    state.stake.insert(info.sender.clone(), new_stake);
    let mut res = Response::new();
    res.add_attribute_str("action", "unbond");
    res.add_attribute("amount", number_text(amount));
    res.add_attribute("denom", denom);
    res.add_attribute("sender", info.sender.clone());
    state.stake_vesting.insert(info.sender.clone(), new_vesting_stake);
    let completion = state.config.unbonding_period.after(&env.block);
    let liquid = if stake <= amount {
        stake
    } else {
        amount
    };
    state.claims.create_claim(info.sender.clone(), liquid, vesting_amount, completion, env.block.height);
    res.add_attribute("completion_time", number_text(completion.time().nanos() as u128));
    let msgs = update_membership(state, info.sender.clone(), new_stake + new_vesting_stake, env.block.height);
    res.add_messages(msgs);
    proof {
        let who = info.sender@;
        let points = points_for(
            old(state).bonded(who) - amount,
            old(state).config.tokens_per_point,
            old(state).config.min_bond,
        );
        let want = unbond_response(
            amount,
            denom@,
            who,
            completion.at.nanos,
            membership_msgs(old(state).hooks@, old(state).members@, who, points),
        );
        assert(res@.attributes =~= want.attributes);
        assert(res@.messages =~= want.messages);
    }
    Ok(res)
}

/// What a claim reports: a transfer of the liquid tokens and the return of
/// the vesting ones, each only where there are any.
pub open spec fn claim_response(sender: Seq<char>, denom: Seq<char>, release: u128, vesting: u128) -> ResponseView {
    let liquid_coin = CoinView { denom, amount: release };
    let vesting_coin = CoinView { denom, amount: vesting };
    let a0 = seq![attr_view("action"@, "claim"@), attr_view("sender"@, sender)];
    let a1 = if release > 0 {
        a0.push(attr_view("liquid_tokens"@, coin_text(liquid_coin)))
    } else {
        a0
    };
    let a2 = if vesting > 0 {
        a1.push(attr_view("vesting_tokens"@, coin_text(vesting_coin)))
    } else {
        a1
    };
    let m0 = Seq::<MsgView>::empty();
    let m1 = if release > 0 {
        m0.push(MsgView::Send { to_address: sender, amount: liquid_coin })
    } else {
        m0
    };
    let m2 = if vesting > 0 {
        m1.push(MsgView::Undelegate { funds: vesting_coin, recipient: sender })
    } else {
        m1
    };
    ResponseView { attributes: a2, messages: m2, events: Seq::empty() }
}

/// The mature claims of `sender` at the time of `env`.
pub open spec fn mature_claims(state: &Stake, env: &Env, sender: Seq<char>) -> Seq<ClaimView> {
    taken(state.claims@, mature_of(sender, env.block.time.nanos), state.claims@.len() as int)
}

/// The states and inputs on which `execute_claim` may be called.
pub open spec fn execute_claim_requires(
    state: &Stake,
    env: &Env,
    info: &MessageInfo,
) -> bool {
    &&& state.wf()
    &&& liquid_sum(mature_claims(state, env, info.sender@)) <= u128::MAX
    &&& vesting_sum(mature_claims(state, env, info.sender@)) <= u128::MAX
}

/// What `execute_claim` returns and how it leaves the state `post` that it found as `pre`.
pub open spec fn execute_claim_ensures(
    pre: &Stake,
    env: &Env,
    info: &MessageInfo,
    post: &Stake,
    r: Result<Response, ContractError>,
) -> bool {
    &&& post.wf()
    &&& post.same_registries(pre)
    &&& post.members == pre.members
    &&& post.stake == pre.stake
    &&& post.stake_vesting == pre.stake_vesting
    &&& ({
        let released = mature_claims(pre, env, info.sender@);
        if liquid_sum(released) == 0 && vesting_sum(released) == 0 {
            r == Err::<Response, ContractError>(ContractError::NothingToClaim) && *post == *pre
        } else {
            &&& r.is_ok()
            &&& post.claims@ == kept(
                pre.claims@,
                mature_of(info.sender@, env.block.time.nanos),
                pre.claims@.len() as int,
            )
            &&& r.unwrap()@ == claim_response(
                info.sender@,
                pre.config.denom@,
                liquid_sum(released) as u128,
                vesting_sum(released) as u128,
            )
        }
    })
}

/// Pays out the mature claims of the sender and takes them off the ledger.
/// Fails where they hold nothing.
pub fn execute_claim(state: &mut Stake, env: &Env, info: &MessageInfo) -> (r: Result<Response, ContractError>)
    requires
        execute_claim_requires(old(state), env, info),
    ensures
        execute_claim_ensures(old(state), env, info, final(state), r),
{
    let mut work = state.claims.duplicate();
    let (release, vesting_release) = work.claim_addr(&info.sender, &env.block, None);
    if release == 0 && vesting_release == 0 {
        return Err(ContractError::NothingToClaim);
    }
    state.claims = work;
    let mut res = Response::new();
    res.add_attribute_str("action", "claim");
    res.add_attribute("sender", info.sender.clone());
    if release != 0 {
        let amount = coin(release, &state.config.denom);
        res.add_attribute("liquid_tokens", amount.to_text());
        res.add_message(Msg::Send { to_address: info.sender.clone(), amount });
    }
    if vesting_release != 0 {
        let vesting_amount = coin(vesting_release, &state.config.denom);
        res.add_attribute("vesting_tokens", vesting_amount.to_text());
        res.add_message(Msg::Undelegate { funds: vesting_amount, recipient: info.sender.clone() });
    }
    proof {
        let want = claim_response(info.sender@, old(state).config.denom@, release, vesting_release);
        assert(res@.attributes =~= want.attributes);
        assert(res@.messages =~= want.messages);
    }
    Ok(res)
}

/// What registering or removing a hook or a slasher reports.
pub open spec fn registry_response(action: Seq<char>, what: Seq<char>, addr: Seq<char>, sender: Seq<char>) -> ResponseView {
    ResponseView {
        attributes: seq![attr_view("action"@, action), attr_view(what, addr), attr_view("sender"@, sender)],
        ..empty_response()
    }
}

fn registry_reply(action: &str, what: &str, addr: String, sender: &String) -> (res: Response)
    ensures
        res@ == registry_response(action@, what@, addr@, sender@),
{
    let mut res = Response::new();
    res.add_attribute_str("action", action);
    res.add_attribute(what, addr);
    res.add_attribute("sender", sender.clone());
    assert(res@.attributes =~= registry_response(action@, what@, addr@, sender@).attributes);
    res
}

/// Stake, members and claims are as in `other`.
pub open spec fn same_holdings(state: &Stake, other: &Stake) -> bool {
    &&& state.members == other.members
    &&& state.stake == other.stake
    &&& state.stake_vesting == other.stake_vesting
    &&& state.claims == other.claims
    &&& state.config == other.config
}

/// What `execute_add_hook` returns and how it leaves the state `post` that it found as `pre`.
pub open spec fn execute_add_hook_ensures(
    pre: &Stake,
    info: &MessageInfo,
    hook: String,
    post: &Stake,
    r: Result<Response, ContractError>,
) -> bool {
    &&& pre.wf() ==> post.wf()
    &&& same_holdings(post, pre)
    &&& post.admin == pre.admin
    &&& post.slashers == pre.slashers
    &&& post.preauth_slashing == pre.preauth_slashing
    &&& match r {
        Ok(res) => {
            &&& pre.admin@ == Some(info.sender@) || pre.preauth_hooks.count > 0
            &&& !pre.hooks@.contains(hook@)
            &&& post.hooks@ == pre.hooks@.push(hook@)
            &&& post.preauth_hooks.count == (if pre.admin@ == Some(info.sender@) {
                pre.preauth_hooks.count as int
            } else {
                pre.preauth_hooks.count - 1
            })
            &&& res@ == registry_response("add_hook"@, "hook"@, hook@, info.sender@)
        },
        Err(e) => {
            &&& *post == *pre
            &&& if pre.admin@ != Some(info.sender@) && pre.preauth_hooks.count == 0 {
                e == ContractError::NoPreauth
            } else {
                &&& e == ContractError::HookAlreadyRegistered
                &&& pre.hooks@.contains(hook@)
            }
        },
    }
}

/// Registers `hook`. The admin may always do so; anyone else uses up one pre-authorisation.
pub fn execute_add_hook(state: &mut Stake, info: &MessageInfo, hook: String) -> (r: Result<Response, ContractError>)
    ensures
        execute_add_hook_ensures(old(state), info, hook, final(state), r),
{
    let left = state.preauth_hooks.get_auth();
    if !state.admin.is_admin(&info.sender) {
        match state.preauth_hooks.use_auth() {
            Ok(_) => {},
            Err(e) => {
                return Err(e);
            },
        }
    }
    match state.hooks.add_hook(hook.clone()) {
        Ok(_) => {},
        Err(e) => {
            // a registration that fails uses up no pre-authorisation
            state.preauth_hooks.set_auth(left);
            return Err(e);
        },
    }
    Ok(registry_reply("add_hook", "hook", hook, &info.sender))
}

/// What `execute_remove_hook` returns and how it leaves the state `post` that it found as `pre`.
pub open spec fn execute_remove_hook_ensures(
    pre: &Stake,
    info: &MessageInfo,
    hook: String,
    post: &Stake,
    r: Result<Response, ContractError>,
) -> bool {
    &&& pre.wf() ==> post.wf()
    &&& same_holdings(post, pre)
    &&& post.admin == pre.admin
    &&& post.slashers == pre.slashers
    &&& post.preauth_slashing == pre.preauth_slashing
    &&& post.preauth_hooks == pre.preauth_hooks
    &&& match r {
        Ok(res) => {
            &&& info.sender@ == hook@ || pre.admin@ == Some(info.sender@)
            &&& unregistered(pre.hooks@, hook@) == Some(post.hooks@)
            &&& res@ == registry_response("remove_hook"@, "hook"@, hook@, info.sender@)
        },
        Err(e) => {
            &&& post.hooks == pre.hooks
            &&& if info.sender@ != hook@ && pre.admin@ != Some(info.sender@) {
                e.is_unauthorized("Hook address is not same as sender's and sender is not an admin"@)
            } else {
                e == ContractError::HookNotRegistered && !pre.hooks@.contains(hook@)
            }
        },
    }
}

/// Takes `hook` out. The admin may do so, and the hook itself.
pub fn execute_remove_hook(state: &mut Stake, info: &MessageInfo, hook: String) -> (r: Result<Response, ContractError>)
    ensures
        execute_remove_hook_ensures(old(state), info, hook, final(state), r),
{
    if info.sender != hook && !state.admin.is_admin(&info.sender) {
        return Err(
            ContractError::Unauthorized(
                String::from_str("Hook address is not same as sender's and sender is not an admin"),
            ),
        );
    }
    match state.hooks.remove_hook(&hook) {
        Ok(_) => {},
        Err(e) => {
            return Err(e);
        },
    }
    Ok(registry_reply("remove_hook", "hook", hook, &info.sender))
}

/// What `execute_add_slasher` returns and how it leaves the state `post` that it found as `pre`.
pub open spec fn execute_add_slasher_ensures(
    pre: &Stake,
    info: &MessageInfo,
    slasher: String,
    post: &Stake,
    r: Result<Response, ContractError>,
) -> bool {
    &&& pre.wf() ==> post.wf()
    &&& same_holdings(post, pre)
    &&& post.admin == pre.admin
    &&& post.hooks == pre.hooks
    &&& post.preauth_hooks == pre.preauth_hooks
    &&& match r {
        Ok(res) => {
            &&& pre.admin@ == Some(info.sender@) || pre.preauth_slashing.count > 0
            &&& !pre.slashers@.contains(slasher@)
            &&& post.slashers@ == pre.slashers@.push(slasher@)
            &&& post.preauth_slashing.count == (if pre.admin@ == Some(info.sender@) {
                pre.preauth_slashing.count as int
            } else {
                pre.preauth_slashing.count - 1
            })
            &&& res@ == registry_response("add_slasher"@, "slasher"@, slasher@, info.sender@)
        },
        Err(e) => {
            &&& *post == *pre
            &&& if pre.admin@ != Some(info.sender@) && pre.preauth_slashing.count == 0 {
                e == ContractError::NoPreauth
            } else {
                &&& e matches ContractError::SlasherAlreadyRegistered(a) && a@ == slasher@
                &&& pre.slashers@.contains(slasher@)
            }
        },
    }
}

/// Registers `slasher`. The admin may always do so; anyone else uses up one pre-authorisation.
pub fn execute_add_slasher(state: &mut Stake, info: &MessageInfo, slasher: String) -> (r: Result<
    Response,
    ContractError,
>)
    ensures
        execute_add_slasher_ensures(old(state), info, slasher, final(state), r),
{
    let left = state.preauth_slashing.get_auth();
    if !state.admin.is_admin(&info.sender) {
        match state.preauth_slashing.use_auth() {
            Ok(_) => {},
            Err(e) => {
                return Err(e);
            },
        }
    }
    match state.slashers.add_slasher(slasher.clone()) {
        Ok(_) => {},
        Err(e) => {
            // a registration that fails uses up no pre-authorisation
            state.preauth_slashing.set_auth(left);
            return Err(e);
        },
    }
    Ok(registry_reply("add_slasher", "slasher", slasher, &info.sender))
}

/// What `execute_remove_slasher` returns and how it leaves the state `post` that it found as `pre`.
pub open spec fn execute_remove_slasher_ensures(
    pre: &Stake,
    info: &MessageInfo,
    slasher: String,
    post: &Stake,
    r: Result<Response, ContractError>,
) -> bool {
    &&& pre.wf() ==> post.wf()
    &&& same_holdings(post, pre)
    &&& post.admin == pre.admin
    &&& post.hooks == pre.hooks
    &&& post.preauth_slashing == pre.preauth_slashing
    &&& post.preauth_hooks == pre.preauth_hooks
    &&& match r {
        Ok(res) => {
            &&& info.sender@ == slasher@ || pre.admin@ == Some(info.sender@)
            &&& unregistered(pre.slashers@, slasher@) == Some(post.slashers@)
            &&& res@ == registry_response("remove_slasher"@, "slasher"@, slasher@, info.sender@)
        },
        Err(e) => {
            &&& post.slashers == pre.slashers
            &&& if info.sender@ != slasher@ && pre.admin@ != Some(info.sender@) {
                e.is_unauthorized("Only slasher might remove himself and sender is not an admin"@)
            } else {
                &&& e matches ContractError::SlasherNotRegistered(a) && a@ == slasher@
                &&& !pre.slashers@.contains(slasher@)
            }
        },
    }
}

/// Takes `slasher` out. The admin may do so, and the slasher itself.
pub fn execute_remove_slasher(state: &mut Stake, info: &MessageInfo, slasher: String) -> (r: Result<
    Response,
    ContractError,
>)
    ensures
        execute_remove_slasher_ensures(old(state), info, slasher, final(state), r),
{
    if info.sender != slasher && !state.admin.is_admin(&info.sender) {
        return Err(
            ContractError::Unauthorized(
                String::from_str("Only slasher might remove himself and sender is not an admin"),
            ),
        );
    }
    match state.slashers.remove_slasher(&slasher) {
        Ok(_) => {},
        Err(e) => {
            return Err(e);
        },
    }
    Ok(registry_reply("remove_slasher", "slasher", slasher, &info.sender))
}

/// The stake in `m` after the portion `portion` was taken from what `addr`
/// holds; nothing changes where nothing is on record for it.
pub open spec fn slashed_stake(m: Map<Seq<char>, u128>, addr: Seq<char>, portion: Decimal) -> Map<Seq<char>, u128> {
    if m.contains_key(addr) {
        m.insert(addr, (m[addr] - portion_of(m[addr], portion)) as u128)
    } else {
        m
    }
}

/// The tokens that a slash burns: the portion of the stake of `addr` in `m`
/// and, of each of its claims, the portion of the claim; liquid or vesting.
pub open spec fn slash_burn(
    m: Map<Seq<char>, u128>,
    claims: Seq<ClaimView>,
    addr: Seq<char>,
    portion: Decimal,
    vesting: bool,
) -> int {
    portion_of(staked(m, addr), portion) + seq_sum(slash_amounts(claims, addr, portion, vesting))
}

/// What a slash reports.
pub open spec fn slash_response(
    addr: Seq<char>,
    sender: Seq<char>,
    denom: Seq<char>,
    liquid: u128,
    vesting: u128,
    hook_messages: Seq<MsgView>,
) -> ResponseView {
    let m0 = Seq::<MsgView>::empty();
    let m1 = if liquid > 0 {
        m0.push(MsgView::Burn { amount: CoinView { denom, amount: liquid } })
    } else {
        m0
    };
    let m2 = if vesting > 0 {
        m1.push(MsgView::Burn { amount: CoinView { denom, amount: vesting } })
    } else {
        m1
    };
    ResponseView {
        attributes: seq![
            attr_view("action"@, "slash"@),
            attr_view("addr"@, addr),
            attr_view("sender"@, sender),
        ],
        messages: m2 + hook_messages,
        events: Seq::empty(),
    }
}

/// The stake of `addr` that a slash by `portion` leaves, liquid and vesting together.
pub open spec fn stake_after_slash(state: &Stake, addr: Seq<char>, portion: Decimal) -> int {
    staked(state.stake@, addr) - portion_of(staked(state.stake@, addr), portion) + staked(
        state.stake_vesting@,
        addr,
    ) - portion_of(staked(state.stake_vesting@, addr), portion)
}

/// The sums of a slash fit in 128 bits, and the membership that follows can be computed.
pub open spec fn slash_op_fits(state: &Stake, addr: Seq<char>, portion: Decimal, height: u64) -> bool {
    &&& slash_fits(state.claims@, addr, portion)
    &&& slash_burn(state.stake@, state.claims@, addr, portion, false) <= u128::MAX
    &&& slash_burn(state.stake_vesting@, state.claims@, addr, portion, true) <= u128::MAX
    &&& stake_after_slash(state, addr, portion) <= u128::MAX
    &&& membership_fits(state, addr, stake_after_slash(state, addr, portion), height)
}

/// The states and inputs on which `execute_slash` may be called.
pub open spec fn execute_slash_requires(
    state: &Stake,
    env: &Env,
    info: &MessageInfo,
    addr: String,
    portion: Decimal,
) -> bool {
    &&& state.wf()
    &&& state.slashers@.contains(info.sender@) && portion.atomics <= DECIMAL_FRACTIONAL && (
    state.stake@.contains_key(addr@) || state.stake_vesting@.contains_key(addr@)) ==> slash_op_fits(
        state,
        addr@,
        portion,
        env.block.height,
    )
}

/// What `execute_slash` returns and how it leaves the state `post` that it found as `pre`.
pub open spec fn execute_slash_ensures(
    pre: &Stake,
    env: &Env,
    info: &MessageInfo,
    addr: String,
    portion: Decimal,
    post: &Stake,
    r: Result<Response, ContractError>,
) -> bool {
    &&& post.wf()
    &&& post.same_registries(pre)
    &&& if !pre.slashers@.contains(info.sender@) {
        &&& r.is_err()
        &&& r.unwrap_err().is_unauthorized("Sender is not on slashers list"@)
        &&& *post == *pre
    } else if portion.atomics > DECIMAL_FRACTIONAL {
        r == Err::<Response, ContractError>(ContractError::InvalidPortion) && *post == *pre
    } else if !pre.stake@.contains_key(addr@) && !pre.stake_vesting@.contains_key(addr@) {
        r.is_ok() && r.unwrap()@ == empty_response() && *post == *pre
    } else {
        let points = points_for(
            stake_after_slash(pre, addr@, portion),
            pre.config.tokens_per_point,
            pre.config.min_bond,
        );
        &&& r.is_ok()
        &&& post.stake@ == slashed_stake(pre.stake@, addr@, portion)
        &&& post.stake_vesting@ == slashed_stake(pre.stake_vesting@, addr@, portion)
        &&& post.claims@ == slashed_claims(pre.claims@, addr@, portion)
        &&& post.members@ == membership_updated(pre.members@, addr@, points, env.block.height)
        &&& lookup(post.members@.points, addr@) == points
        &&& r.unwrap()@ == slash_response(
            addr@,
            info.sender@,
            pre.config.denom@,
            slash_burn(pre.stake@, pre.claims@, addr@, portion, false) as u128,
            slash_burn(pre.stake_vesting@, pre.claims@, addr@, portion, true) as u128,
            membership_msgs(pre.hooks@, pre.members@, addr@, points),
        )
    }
}

/// Takes the portion `portion` from the liquid and the vesting stake of
/// `addr` and from each of its claims, each rounded down, and burns what was
/// taken. The points of `addr` follow. Only a slasher may do so. Nothing
/// happens where `addr` has no stake on record.
pub fn execute_slash(state: &mut Stake, env: &Env, info: &MessageInfo, addr: String, portion: Decimal) -> (r: Result<
    Response,
    ContractError,
>)
    requires
        execute_slash_requires(old(state), env, info, addr, portion),
    ensures
        execute_slash_ensures(old(state), env, info, addr, portion, final(state), r),
{
    if !state.slashers.is_slasher(&info.sender) {
        return Err(ContractError::Unauthorized(String::from_str("Sender is not on slashers list")));
    }
    match validate_portion(portion) {
        Ok(_) => {},
        Err(e) => {
            return Err(e);
        },
    }
    let liquid_stake = match state.stake.get(&addr) {
        Some(s) => Some(*s),
        None => None,
    };
    let vesting_stake = match state.stake_vesting.get(&addr) {
        Some(s) => Some(*s),
        None => None,
    };
    if liquid_stake.is_none() && vesting_stake.is_none() {
        return Ok(Response::new());
    }
    proof {
        lemma_portion_bounds(0, portion);
    }
    let mut res = Response::new();
    res.add_attribute_str("action", "slash");
    res.add_attribute("addr", addr.clone());
    res.add_attribute("sender", info.sender.clone());
    let mut new_liquid_stake: u128 = 0;
    let mut liquid_slashed: u128 = 0;
    match liquid_stake {
        Some(liquid) => {
            liquid_slashed = share_of(liquid, portion);
            new_liquid_stake = liquid - liquid_slashed;
            state.stake.insert(addr.clone(), new_liquid_stake);
        },
        None => {},
    }
    let mut new_vesting_stake: u128 = 0;
    let mut vesting_slashed: u128 = 0;
    match vesting_stake {
        Some(vesting) => {
            vesting_slashed = share_of(vesting, portion);
            new_vesting_stake = vesting - vesting_slashed;
            state.stake_vesting.insert(addr.clone(), new_vesting_stake);
        },
        None => {},
    }
    let (liquid_claims_slashed, vesting_claims_slashed) = state.claims.slash_claims_for_addr(addr.clone(), portion);
    liquid_slashed = liquid_slashed + liquid_claims_slashed;
    vesting_slashed = vesting_slashed + vesting_claims_slashed;
    if liquid_slashed > 0 {
        res.add_message(Msg::Burn { amount: coin(liquid_slashed, &state.config.denom) });
    }
    if vesting_slashed > 0 {
        res.add_message(Msg::Burn { amount: coin(vesting_slashed, &state.config.denom) });
    }
    let msgs = update_membership(state, addr.clone(), new_liquid_stake + new_vesting_stake, env.block.height);
    res.add_messages(msgs);
    proof {
        let points = points_for(
            stake_after_slash(old(state), addr@, portion),
            old(state).config.tokens_per_point,
            old(state).config.min_bond,
        );
        let want = slash_response(
            addr@,
            info.sender@,
            old(state).config.denom@,
            liquid_slashed,
            vesting_slashed,
            membership_msgs(old(state).hooks@, old(state).members@, addr@, points),
        );
        assert(res@.attributes =~= want.attributes);
        assert(res@.messages =~= want.messages);
    }
    Ok(res)
}

/// A transfer to each address in `releases` that is owed tokens, in order.
pub open spec fn send_msgs(releases: Seq<ReleaseView>, denom: Seq<char>) -> Seq<MsgView>
    decreases releases.len(),
{
    if releases.len() == 0 {
        Seq::empty()
    } else {
        let before = send_msgs(releases.drop_last(), denom);
        let last = releases.last();
        if last.amount > 0 {
            before.push(MsgView::Send { to_address: last.addr, amount: CoinView { denom, amount: last.amount } })
        } else {
            before
        }
    }
}

/// A return of vesting tokens to each address in `releases` that is owed any, in order.
pub open spec fn undelegate_msgs(releases: Seq<ReleaseView>, denom: Seq<char>) -> Seq<MsgView>
    decreases releases.len(),
{
    if releases.len() == 0 {
        Seq::empty()
    } else {
        let before = undelegate_msgs(releases.drop_last(), denom);
        let last = releases.last();
        if last.amount > 0 {
            before.push(
                MsgView::Undelegate { funds: CoinView { denom, amount: last.amount }, recipient: last.addr },
            )
        } else {
            before
        }
    }
}

/// The claims that the end of the block of `env` releases: the mature ones,
/// oldest first, as many as the limit of the settings allows.
pub open spec fn due_claims(state: &Stake, env: &Env) -> Seq<ClaimView> {
    taken(state.claims@, mature(env.block.time.nanos), state.config.auto_return_limit as int)
}

/// `msgs` pay out the claims `released`: first a transfer of the liquid
/// tokens to every address that is owed any, in the order of the addresses,
/// then the return of the vesting tokens in the same way.
pub open spec fn pays_out(released: Seq<ClaimView>, denom: Seq<char>, msgs: Seq<MsgView>) -> bool {
    exists|liquid: Seq<ReleaseView>, vesting: Seq<ReleaseView>|
        groups(released, false, liquid) && groups(released, true, vesting) && msgs == #[trigger] send_msgs(
            liquid,
            denom,
        ) + #[trigger] undelegate_msgs(vesting, denom)
}

/// Releases the claims that are due and returns the messages that pay them out.
pub fn release_expired_claims(state: &mut Stake, env: &Env) -> (r: Vec<Msg>)
    requires
        old(state).wf(),
        groups_fit(due_claims(old(state), env)),
    ensures
        final(state).wf(),
        final(state).same_registries(old(state)),
        final(state).members == old(state).members,
        final(state).stake == old(state).stake,
        final(state).stake_vesting == old(state).stake_vesting,
        final(state).claims@ == kept(
            old(state).claims@,
            mature(env.block.time.nanos),
            old(state).config.auto_return_limit as int,
        ),
        pays_out(due_claims(old(state), env), old(state).config.denom@, views(r@)),
{
    let release_data = state.claims.claim_expired(&env.block, Some(state.config.auto_return_limit));
    let ghost liquid = views(release_data.liquid_releases@);
    let ghost vesting = views(release_data.vesting_releases@);
    let ghost denom = state.config.denom@;
    let mut msgs: Vec<Msg> = Vec::new();
    let mut i: usize = 0;
    proof {
        assert(liquid.take(0) =~= Seq::<ReleaseView>::empty());
        assert(views(msgs@) =~= Seq::<MsgView>::empty());
    }
    while i < release_data.liquid_releases.len()
        invariant
            i <= release_data.liquid_releases@.len(),
            liquid == views(release_data.liquid_releases@),
            denom == state.config.denom@,
            views(msgs@) == send_msgs(liquid.take(i as int), denom),
        decreases release_data.liquid_releases@.len() - i,
    {
        let info = &release_data.liquid_releases[i];
        proof {
            assert(liquid.take(i + 1).drop_last() =~= liquid.take(i as int));
            assert(liquid.take(i + 1).last() == info@);
        }
        if info.amount != 0 {
            let m = Msg::Send { to_address: info.addr.clone(), amount: coin(info.amount, &state.config.denom) };
            proof {
                lemma_views_push(msgs@, m);
            }
            msgs.push(m);
        }
        i = i + 1;
    }
    let ghost sends = views(msgs@);
    let mut j: usize = 0;
    proof {
        assert(liquid.take(liquid.len() as int) =~= liquid);
        assert(vesting.take(0) =~= Seq::<ReleaseView>::empty());
        assert(sends + Seq::<MsgView>::empty() =~= sends);
    }
    while j < release_data.vesting_releases.len()
        invariant
            j <= release_data.vesting_releases@.len(),
            vesting == views(release_data.vesting_releases@),
            denom == state.config.denom@,
            views(msgs@) == sends + undelegate_msgs(vesting.take(j as int), denom),
        decreases release_data.vesting_releases@.len() - j,
    {
        let info = &release_data.vesting_releases[j];
        proof {
            assert(vesting.take(j + 1).drop_last() =~= vesting.take(j as int));
            assert(vesting.take(j + 1).last() == info@);
        }
        if info.amount != 0 {
            let m = Msg::Undelegate { funds: coin(info.amount, &state.config.denom), recipient: info.addr.clone() };
            proof {
                lemma_views_push(msgs@, m);
                assert((sends + undelegate_msgs(vesting.take(j as int), denom)).push(m@) =~= sends
                    + undelegate_msgs(vesting.take(j as int), denom).push(m@));
            }
            msgs.push(m);
        }
        j = j + 1;
    }
    proof {
        assert(vesting.take(vesting.len() as int) =~= vesting);
        assert(views(msgs@) == send_msgs(liquid, denom) + undelegate_msgs(vesting, denom));
    }
    msgs
}

/// The states and inputs on which `end_block` may be called.
pub open spec fn end_block_requires(
    state: &Stake,
    env: &Env,
) -> bool {
    &&& state.wf()
    &&& state.config.auto_return_limit > 0 ==> groups_fit(due_claims(state, env))
}

/// What `end_block` returns and how it leaves the state `post` that it found as `pre`.
pub open spec fn end_block_ensures(
    pre: &Stake,
    env: &Env,
    post: &Stake,
    r: Result<Response, ContractError>,
) -> bool {
    &&& post.wf()
    &&& post.same_registries(pre)
    &&& post.members == pre.members
    &&& post.stake == pre.stake
    &&& post.stake_vesting == pre.stake_vesting
    &&& r.is_ok()
    &&& r.unwrap()@.attributes == Seq::<AttributeView>::empty()
    &&& r.unwrap()@.events == Seq::<crate::types::EventView>::empty()
    &&& if pre.config.auto_return_limit > 0 {
        &&& post.claims@ == kept(
            pre.claims@,
            mature(env.block.time.nanos),
            pre.config.auto_return_limit as int,
        )
        &&& pays_out(due_claims(pre, env), pre.config.denom@, r.unwrap()@.messages)
    } else {
        r.unwrap()@ == empty_response() && *post == *pre
    }
}

/// At the end of a block: where the settings name a limit, the claims that
/// are due are released and paid out.
pub fn end_block(state: &mut Stake, env: &Env) -> (r: Result<Response, ContractError>)
    requires
        end_block_requires(old(state), env),
    ensures
        end_block_ensures(old(state), env, final(state), r),
{
    let mut resp = Response::new();
    if state.config.auto_return_limit > 0 {
        let sub_msgs = release_expired_claims(state, env);
        resp.add_messages(sub_msgs);
        assert(Seq::<MsgView>::empty() + views(sub_msgs@) =~= views(sub_msgs@));
    }
    Ok(resp)
}

/// What the engine asks of the host when it is given its privileges.
pub open spec fn promote_response(auto_return_limit: u64) -> ResponseView {
    let delegator = MsgView::RequestPrivilege { privilege: Privilege::Delegator };
    ResponseView {
        messages: if auto_return_limit > 0 {
            seq![MsgView::RequestPrivilege { privilege: Privilege::EndBlocker }, delegator]
        } else {
            seq![delegator]
        },
        ..empty_response()
    }
}

/// What `privilege_promote` returns on the state `state`.
pub open spec fn privilege_promote_ensures(
    state: &Stake,
    r: Result<Response, ContractError>,
) -> bool {
    &&& r.is_ok()
    &&& r.unwrap()@ == promote_response(state.config.auto_return_limit)
}

/// Asks to move tokens for vesting accounts and, where claims are released
/// by themselves, to be called at the end of every block.
pub fn privilege_promote(state: &Stake) -> (r: Result<Response, ContractError>)
    ensures
        privilege_promote_ensures(state, r),
{
    let mut res = Response::new();
    if state.config.auto_return_limit > 0 {
        res.add_message(Msg::RequestPrivilege { privilege: Privilege::EndBlocker });
    }
    res.add_message(Msg::RequestPrivilege { privilege: Privilege::Delegator });
    assert(res@.messages =~= promote_response(state.config.auto_return_limit).messages);
    Ok(res)
}

/// The states and inputs on which `query_total_points` may be called.
pub open spec fn query_total_points_requires(
    state: &Stake,
) -> bool {
    &&& state.wf()
}

/// What `query_total_points` returns on the state `state`.
pub open spec fn query_total_points_ensures(
    state: &Stake,
    r: TotalPointsResponse,
) -> bool {
    &&& r.points == state.members@.total
    &&& r.points == state.members.sum_of_points()
}

/// The total of all points.
pub fn query_total_points(state: &Stake) -> (r: TotalPointsResponse)
    requires
        query_total_points_requires(state),
    ensures
        query_total_points_ensures(state, r),
{
    TotalPointsResponse { points: state.members.total() }
}

/// The states and inputs on which `query_staked` may be called.
pub open spec fn query_staked_requires(
    state: &Stake,
    addr: String,
) -> bool {
    &&& state.wf()
}

/// What `query_staked` returns on the state `state`.
pub open spec fn query_staked_ensures(
    state: &Stake,
    addr: String,
    r: StakedResponse,
) -> bool {
    &&& r.liquid@ == (CoinView { denom: state.config.denom@, amount: staked(state.stake@, addr@) })
    &&& r.vesting@ == (CoinView { denom: state.config.denom@, amount: staked(state.stake_vesting@, addr@) })
}

/// The liquid and the vesting stake of `addr`.
pub fn query_staked(state: &Stake, addr: String) -> (r: StakedResponse)
    requires
        query_staked_requires(state, addr),
    ensures
        query_staked_ensures(state, addr, r),
{
    let stake = match state.stake.get(&addr) {
        Some(s) => *s,
        None => 0,
    };
    let vesting = match state.stake_vesting.get(&addr) {
        Some(s) => *s,
        None => 0,
    };
    StakedResponse { liquid: coin(stake, &state.config.denom), vesting: coin(vesting, &state.config.denom) }
}

/// The states and inputs on which `query_member` may be called.
pub open spec fn query_member_requires(
    state: &Stake,
    addr: &String,
    height: Option<u64>,
) -> bool {
    &&& state.wf()
}

/// What `query_member` returns on the state `state`.
pub open spec fn query_member_ensures(
    state: &Stake,
    addr: &String,
    height: Option<u64>,
    r: MemberResponse,
) -> bool {
    &&& r.start_height is None
    &&& r.points == (match height {
        Some(h) => points_at(state.members@, addr@, h),
        None => lookup(state.members@.points, addr@),
    })
}

/// The points of `addr` now, or at the start of the block `height`.
pub fn query_member(state: &Stake, addr: &String, height: Option<u64>) -> (r: MemberResponse)
    requires
        query_member_requires(state, addr, height),
    ensures
        query_member_ensures(state, addr, height, r),
{
    let points = match height {
        Some(h) => state.members.may_load_at_height(addr, h),
        None => state.members.may_load(addr),
    };
    MemberResponse { points, start_height: None }
}

/// The largest number of members that one listing holds.
pub const MAX_LIMIT: u32 = 100;

/// The number of members that a listing holds where none is asked for.
pub const DEFAULT_LIMIT: u32 = 30;

/// The number of items that a listing holds for the limit asked for.
pub open spec fn page_size(limit: Option<u32>) -> int {
    match limit {
        Some(l) => if l < MAX_LIMIT {
            l as int
        } else {
            MAX_LIMIT as int
        },
        None => DEFAULT_LIMIT as int,
    }
}

/// The number of items that a listing holds for the limit asked for.
pub fn limit_of(limit: Option<u32>) -> (r: usize)
    ensures
        r == page_size(limit),
{
    match limit {
        Some(l) => if l < MAX_LIMIT {
            l as usize
        } else {
            MAX_LIMIT as usize
        },
        None => DEFAULT_LIMIT as usize,
    }
}

/// The states and inputs on which `list_members` may be called.
pub open spec fn list_members_requires(
    state: &Stake,
    start_after: Option<String>,
    limit: Option<u32>,
) -> bool {
    &&& state.wf()
}

/// What `list_members` returns on the state `state`.
pub open spec fn list_members_ensures(
    state: &Stake,
    start_after: Option<String>,
    limit: Option<u32>,
    r: MemberListResponse,
) -> bool {
    &&& crate::members::lists_from(
        state.members.current.entries@,
        opt_text(start_after),
        page_size(limit),
        views(r.members@),
    )
}

/// The members in ascending order of their addresses, from the one after
/// `start_after` on, as many as the limit allows.
pub fn list_members(state: &Stake, start_after: Option<String>, limit: Option<u32>) -> (r: MemberListResponse)
    requires
        list_members_requires(state, start_after, limit),
    ensures
        list_members_ensures(state, start_after, limit, r),
{
    let n = limit_of(limit);
    let members = match &start_after {
        Some(s) => state.members.list(Some(s), n),
        None => state.members.list(None, n),
    };
    MemberListResponse { members }
}

/// The bound of a ranked listing that starts after the member `m`.
pub open spec fn rank_bound(m: Option<Member>) -> Option<(u64, Seq<char>)> {
    match m {
        Some(m) => Some((m.points, m.addr@)),
        None => None,
    }
}

/// The states and inputs on which `list_members_by_points` may be called.
pub open spec fn list_members_by_points_requires(
    state: &Stake,
    start_after: Option<Member>,
    limit: Option<u32>,
) -> bool {
    &&& state.wf()
}

/// What `list_members_by_points` returns on the state `state`.
pub open spec fn list_members_by_points_ensures(
    state: &Stake,
    start_after: Option<Member>,
    limit: Option<u32>,
    r: MemberListResponse,
) -> bool {
    &&& crate::members::ranked_from(
        state.members.current.entries@,
        rank_bound(start_after),
        page_size(limit),
        views(r.members@),
    )
}

/// The members from the highest rank down, from the one after `start_after`
/// on, as many as the limit allows. More points rank higher; among equal
/// points the later address does.
pub fn list_members_by_points(state: &Stake, start_after: Option<Member>, limit: Option<u32>) -> (r:
    MemberListResponse)
    requires
        list_members_by_points_requires(state, start_after, limit),
    ensures
        list_members_by_points_ensures(state, start_after, limit, r),
{
    let n = limit_of(limit);
    let ghost bound = rank_bound(start_after);
    let start = match start_after {
        Some(m) => Some((m.points, m.addr)),
        None => None,
    };
    assert(crate::members::bound_view(start) == bound);
    MemberListResponse { members: state.members.list_by_points(start, n) }
}

/// The setting that a migration leaves: the new value where one is named,
/// with zero counted as one, else the old value.
pub open spec fn migrated_floor(new: Option<u128>, old: u128) -> u128 {
    match new {
        Some(v) => if v == 0 {
            1
        } else {
            v
        },
        None => old,
    }
}

/// The states and inputs on which `migrate` may be called.
pub open spec fn migrate_requires(
    state: &Stake,
    msg: MigrateMsg,
) -> bool {
    &&& state.wf()
}

/// What `migrate` returns and how it leaves the state `post` that it found as `pre`.
pub open spec fn migrate_ensures(
    pre: &Stake,
    msg: MigrateMsg,
    post: &Stake,
    r: Result<Response, ContractError>,
) -> bool {
    &&& post.wf()
    &&& r.is_ok()
    &&& r.unwrap()@ == empty_response()
    &&& post.config.denom == pre.config.denom
    &&& post.config.tokens_per_point == migrated_floor(
        msg.tokens_per_point,
        pre.config.tokens_per_point,
    )
    &&& post.config.min_bond == migrated_floor(msg.min_bond, pre.config.min_bond)
    &&& post.config.unbonding_period.secs == (match msg.unbonding_period {
        Some(p) => p,
        None => pre.config.unbonding_period.secs,
    })
    &&& post.config.auto_return_limit == (match msg.auto_return_limit {
        Some(l) => l,
        None => pre.config.auto_return_limit,
    })
    &&& post.members == pre.members
    &&& post.stake == pre.stake
    &&& post.stake_vesting == pre.stake_vesting
    &&& post.claims == pre.claims
    &&& post.admin == pre.admin
    &&& post.hooks == pre.hooks
    &&& post.preauth_hooks == pre.preauth_hooks
    &&& post.preauth_slashing == pre.preauth_slashing
    &&& post.slashers == pre.slashers
}

/// Changes the settings that `msg` names. Tokens per point and the least
/// bond are at least one: zero counts as one.
pub fn migrate(state: &mut Stake, msg: MigrateMsg) -> (r: Result<Response, ContractError>)
    requires
        migrate_requires(old(state), msg),
    ensures
        migrate_ensures(old(state), msg, final(state), r),
{
    match msg.tokens_per_point {
        Some(tokens_per_point) => {
            state.config.tokens_per_point = if tokens_per_point == 0 {
                1
            } else {
                tokens_per_point
            };
        },
        None => {},
    }
    match msg.min_bond {
        Some(min_bond) => {
            state.config.min_bond = if min_bond == 0 {
                1
            } else {
                min_bond
            };
        },
        None => {},
    }
    match msg.unbonding_period {
        Some(unbonding_period) => {
            state.config.unbonding_period = Duration::new(unbonding_period);
        },
        None => {},
    }
    match msg.auto_return_limit {
        Some(auto_return_limit) => {
            state.config.auto_return_limit = auto_return_limit;
        },
        None => {},
    }
    Ok(Response::new())
}

/// The states and inputs on which `execute` may be called: those on which
/// the operation that the message names may be.
pub open spec fn execute_requires(state: &Stake, env: &Env, info: &MessageInfo, msg: ExecuteMsg) -> bool {
    &&& state.wf()
    &&& match msg {
        ExecuteMsg::Bond { vesting_tokens } => execute_bond_requires(state, env, info, vesting_tokens),
        ExecuteMsg::Unbond { tokens } => execute_unbond_requires(state, env, info, tokens.amount, tokens.denom),
        ExecuteMsg::Claim => execute_claim_requires(state, env, info),
        ExecuteMsg::Slash { addr, portion } => execute_slash_requires(state, env, info, addr, portion),
        _ => true,
    }
}

/// What a change of admin returns and how it leaves the state.
pub open spec fn update_admin_ensures(
    pre: &Stake,
    info: &MessageInfo,
    admin: Option<String>,
    post: &Stake,
    r: Result<Response, ContractError>,
) -> bool {
    &&& r.is_ok() <==> pre.admin@ == Some(info.sender@)
    &&& r.is_ok() ==> post.admin@ == opt_text(admin) && r.unwrap()@ == update_admin_response(
        info.sender@,
        opt_text(admin),
    )
    &&& r.is_err() ==> r == Err::<Response, ContractError>(ContractError::NotAdmin) && *post == *pre
    &&& same_holdings(post, pre)
    &&& post.hooks == pre.hooks
    &&& post.slashers == pre.slashers
    &&& post.preauth_hooks == pre.preauth_hooks
    &&& post.preauth_slashing == pre.preauth_slashing
}

/// What `execute` returns and how it leaves the state: what the operation
/// that the message names does.
pub open spec fn execute_ensures(
    pre: &Stake,
    env: &Env,
    info: &MessageInfo,
    msg: ExecuteMsg,
    post: &Stake,
    r: Result<Response, ContractError>,
) -> bool {
    &&& post.wf()
    &&& match msg {
        ExecuteMsg::UpdateAdmin { admin } => update_admin_ensures(pre, info, admin, post, r),
        ExecuteMsg::AddHook { addr } => execute_add_hook_ensures(pre, info, addr, post, r),
        ExecuteMsg::RemoveHook { addr } => execute_remove_hook_ensures(pre, info, addr, post, r),
        ExecuteMsg::Bond { vesting_tokens } => execute_bond_ensures(pre, env, info, vesting_tokens, post, r),
        ExecuteMsg::Unbond { tokens } => execute_unbond_ensures(
            pre,
            env,
            info,
            tokens.amount,
            tokens.denom,
            post,
            r,
        ),
        ExecuteMsg::Claim => execute_claim_ensures(pre, env, info, post, r),
        ExecuteMsg::AddSlasher { addr } => execute_add_slasher_ensures(pre, info, addr, post, r),
        ExecuteMsg::RemoveSlasher { addr } => execute_remove_slasher_ensures(pre, info, addr, post, r),
        ExecuteMsg::Slash { addr, portion } => execute_slash_ensures(pre, env, info, addr, portion, post, r),
    }
}

/// Carries out the operation that `msg` names.
pub fn execute(state: &mut Stake, env: &Env, info: &MessageInfo, msg: ExecuteMsg) -> (r: Result<
    Response,
    ContractError,
>)
    requires
        execute_requires(old(state), env, info, msg),
    ensures
        execute_ensures(old(state), env, info, msg, final(state), r),
{
    match msg {
        ExecuteMsg::UpdateAdmin { admin } => state.admin.execute_update_admin(&info.sender, admin),
        ExecuteMsg::AddHook { addr } => execute_add_hook(state, info, addr),
        ExecuteMsg::RemoveHook { addr } => execute_remove_hook(state, info, addr),
        ExecuteMsg::Bond { vesting_tokens } => execute_bond(state, env, info, vesting_tokens),
        ExecuteMsg::Unbond { tokens } => execute_unbond(state, env, info, tokens.amount, tokens.denom),
        ExecuteMsg::Claim => execute_claim(state, env, info),
        ExecuteMsg::AddSlasher { addr } => execute_add_slasher(state, info, addr),
        ExecuteMsg::RemoveSlasher { addr } => execute_remove_slasher(state, info, addr),
        ExecuteMsg::Slash { addr, portion } => execute_slash(state, env, info, addr, portion),
    }
}

/// The states and inputs on which `sudo` may be called.
pub open spec fn sudo_requires(state: &Stake, env: &Env, msg: SudoMsg) -> bool {
    &&& state.wf()
    &&& msg == SudoMsg::EndBlock ==> end_block_requires(state, env)
}

/// What `sudo` returns and how it leaves the state: the request for
/// privileges, the work at the end of a block; any other message is refused.
pub open spec fn sudo_ensures(
    pre: &Stake,
    env: &Env,
    msg: SudoMsg,
    post: &Stake,
    r: Result<Response, ContractError>,
) -> bool {
    match msg {
        SudoMsg::PrivilegeChange(PrivilegeChangeMsg::Promoted) => privilege_promote_ensures(pre, r) && *post == *pre,
        SudoMsg::EndBlock => end_block_ensures(pre, env, post, r),
        _ => r == Err::<Response, ContractError>(ContractError::UnknownSudoMsg) && *post == *pre,
    }
}

/// Carries out what the host itself asks for.
pub fn sudo(state: &mut Stake, env: &Env, msg: SudoMsg) -> (r: Result<Response, ContractError>)
    requires
        sudo_requires(old(state), env, msg),
    ensures
        sudo_ensures(old(state), env, msg, final(state), r),
{
    match msg {
        SudoMsg::PrivilegeChange(PrivilegeChangeMsg::Promoted) => privilege_promote(state),
        SudoMsg::EndBlock => end_block(state, env),
        _ => Err(ContractError::UnknownSudoMsg),
    }
}

/// What `query` answers: for every kind of question the answer of its kind.
pub open spec fn query_ensures(state: &Stake, msg: QueryMsg, r: QueryResponse) -> bool {
    match msg {
        QueryMsg::Configuration => r matches QueryResponse::Configuration(c) && c == state.config,
        QueryMsg::Member { addr, at_height } => r matches QueryResponse::Member(m) && query_member_ensures(
            state,
            &addr,
            at_height,
            m,
        ),
        QueryMsg::ListMembers { start_after, limit } => r matches QueryResponse::MemberList(l)
            && list_members_ensures(state, start_after, limit, l),
        QueryMsg::ListMembersByPoints { start_after, limit } => r matches QueryResponse::MemberList(l)
            && list_members_by_points_ensures(state, start_after, limit, l),
        QueryMsg::TotalPoints => r matches QueryResponse::TotalPoints(t) && query_total_points_ensures(state, t),
        QueryMsg::Claims { address, limit, start_after } => r matches QueryResponse::Claims(c) && views(c.claims@)
            == taken(state.claims@, listed_of(address@, start_after), crate::stake::claim::page_size(limit)),
        QueryMsg::Staked { address } => r matches QueryResponse::Staked(s) && query_staked_ensures(state, address, s),
        QueryMsg::Admin => r matches QueryResponse::Admin(a) && opt_text(a) == state.admin@,
        QueryMsg::Hooks => r matches QueryResponse::Hooks(h) && views(h@) == state.hooks@,
        QueryMsg::Preauths => r matches QueryResponse::Preauths(n) && n == state.preauth_hooks.count,
        QueryMsg::UnbondingPeriod => r matches QueryResponse::UnbondingPeriod(u) && u.unbonding_period
            == state.config.unbonding_period,
        QueryMsg::IsSlasher { addr } => r matches QueryResponse::IsSlasher(b) && b == state.slashers@.contains(
            addr@,
        ),
        QueryMsg::ListSlashers => r matches QueryResponse::Slashers(l) && views(l@) == state.slashers@,
    }
}

/// Answers the question that `msg` asks.
pub fn query(state: &Stake, env: &Env, msg: QueryMsg) -> (r: QueryResponse)
    requires
        state.wf(),
    ensures
        query_ensures(state, msg, r),
{
    match msg {
        QueryMsg::Configuration => QueryResponse::Configuration(state.config.duplicate()),
        QueryMsg::Member { addr, at_height } => QueryResponse::Member(query_member(state, &addr, at_height)),
        QueryMsg::ListMembers { start_after, limit } => QueryResponse::MemberList(
            list_members(state, start_after, limit),
        ),
        QueryMsg::ListMembersByPoints { start_after, limit } => QueryResponse::MemberList(
            list_members_by_points(state, start_after, limit),
        ),
        QueryMsg::TotalPoints => QueryResponse::TotalPoints(query_total_points(state)),
        QueryMsg::Claims { address, limit, start_after } => QueryResponse::Claims(
            ClaimsResponse { claims: state.claims.query_claims(address, limit, start_after) },
        ),
        QueryMsg::Staked { address } => QueryResponse::Staked(query_staked(state, address)),
        QueryMsg::Admin => QueryResponse::Admin(state.admin.query_admin()),
        QueryMsg::Hooks => QueryResponse::Hooks(state.hooks.list_hooks()),
        QueryMsg::Preauths => QueryResponse::Preauths(state.preauth_hooks.get_auth()),
        QueryMsg::UnbondingPeriod => QueryResponse::UnbondingPeriod(
            UnbondingPeriodResponse { unbonding_period: state.config.unbonding_period },
        ),
        QueryMsg::IsSlasher { addr } => QueryResponse::IsSlasher(state.slashers.is_slasher(&addr)),
        QueryMsg::ListSlashers => QueryResponse::Slashers(state.slashers.list_slashers()),
    }
}

} // verus!
