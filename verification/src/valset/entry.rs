//! The messages of the validator engine, each handed to its operation, and
//! the answers about operators.

use crate::controllers::{opt_text, update_admin_response};
use crate::error::ContractError;
use crate::keyed::{keys_of, AddrMap};
use crate::text::{addr_before, side_of, Side};
use crate::members::Members;
use crate::types::{Env, MessageInfo, MsgView, Response, ResponseView};
use crate::valset::contract::{
    distribute_epoch_reward, end_block, end_block_ensures, epoch_of, execute_slash, jail, jail_ensures, powers_fit,
    register_validator_key, register_validator_key_ensures, reward_after_fees, reward_msgs, slash_ensures, unjail,
    unjail_ensures, update_config, update_config_ensures, update_metadata, update_metadata_ensures, ConfigUpdate,
    EndBlockOutcome,
};
use crate::valset::msg::{
    ExecuteMsg, JailingDuration, JailingPeriod, ListValidatorResponse, OperatorResponse, ValidatorResponse,
};
use crate::valset::state::{epoch_at, Config, Pubkey, Valset};
use vstd::prelude::*;

verus! {

/// The states and messages on which `execute` may be called: a valid state,
/// and a jailing for a time that ends within the range of a timestamp.
pub open spec fn execute_requires(state: &Valset, env: &Env, msg: ExecuteMsg) -> bool {
    &&& state.wf()
    &&& match msg {
        ExecuteMsg::Jail { operator, duration } => duration matches JailingDuration::Duration(d) ==> d.fits_after(
            env.block.time,
        ),
        _ => true,
    }
}

/// Whether `execute` may be called with the message `msg`.
pub fn execute_fits(state: &Valset, env: &Env, msg: &ExecuteMsg) -> (r: bool)
    requires
        state.wf(),
    ensures
        r == execute_requires(state, env, *msg),
{
    match msg {
        ExecuteMsg::Jail { operator, duration } => match duration {
            JailingDuration::Duration(d) => d.ends_in_range(env.block.time),
            JailingDuration::Forever => true,
        },
        _ => true,
    }
}

/// What a change of admin returns and how it leaves the state.
pub open spec fn update_admin_ensures(
    pre: &Valset,
    info: &MessageInfo,
    admin: Option<String>,
    post: &Valset,
    r: Result<Response, ContractError>,
) -> bool {
    &&& post.wf()
    &&& r.is_ok() <==> pre.admin@ == Some(info.sender@)
    &&& r.is_ok() ==> post.admin@ == opt_text(admin) && r.unwrap()@ == update_admin_response(
        info.sender@,
        opt_text(admin),
    )
    &&& r.is_err() ==> r == Err::<Response, ContractError>(ContractError::NotAdmin) && *post == *pre
    &&& post.config == pre.config
    &&& post.epoch == pre.epoch
    &&& post.operators == pre.operators
    &&& post.jail == pre.jail
    &&& post.validators == pre.validators
    &&& post.pending == pre.pending
}

/// What `execute` returns and how it leaves the state: what the operation
/// that the message names does.
pub open spec fn execute_ensures(
    pre: &Valset,
    env: &Env,
    info: &MessageInfo,
    msg: ExecuteMsg,
    post: &Valset,
    r: Result<Response, ContractError>,
) -> bool {
    match msg {
        ExecuteMsg::UpdateAdmin { admin } => update_admin_ensures(pre, info, admin, post, r),
        ExecuteMsg::UpdateConfig {
            min_points,
            max_validators,
            scaling,
            epoch_reward,
            fee_percentage,
            auto_unjail,
            double_sign_slash_ratio,
            distribution_contracts,
            verify_validators,
            offline_jail_duration,
        } => update_config_ensures(
            pre,
            info,
            ConfigUpdate {
                min_points,
                max_validators,
                scaling,
                epoch_reward,
                fee_percentage,
                auto_unjail,
                double_sign_slash_ratio,
                distribution_contracts,
                verify_validators,
                offline_jail_duration,
            },
            post,
            r,
        ),
        ExecuteMsg::RegisterValidatorKey { pubkey, metadata } => register_validator_key_ensures(
            pre,
            info,
            pubkey,
            metadata,
            post,
            r,
        ),
        ExecuteMsg::UpdateMetadata(metadata) => update_metadata_ensures(pre, info, metadata, post, r),
        ExecuteMsg::Jail { operator, duration } => jail_ensures(pre, env, info, operator, duration, post, r),
        ExecuteMsg::Unjail { operator } => unjail_ensures(pre, env, info, operator, post, r),
        ExecuteMsg::Slash { addr, portion } => slash_ensures(pre, info, addr, portion, r) && *post == *pre,
    }
}

/// Hands the message to the operation that it names.
pub fn execute(state: &mut Valset, env: &Env, info: &MessageInfo, msg: ExecuteMsg) -> (r: Result<
    Response,
    ContractError,
>)
    requires
        execute_requires(old(state), env, msg),
    ensures
        execute_ensures(old(state), env, info, msg, final(state), r),
{
    match msg {
        ExecuteMsg::UpdateAdmin { admin } => state.admin.execute_update_admin(&info.sender, admin),
        ExecuteMsg::UpdateConfig {
            min_points,
            max_validators,
            scaling,
            epoch_reward,
            fee_percentage,
            auto_unjail,
            double_sign_slash_ratio,
            distribution_contracts,
            verify_validators,
            offline_jail_duration,
        } => update_config(
            state,
            info,
            ConfigUpdate {
                min_points,
                max_validators,
                scaling,
                epoch_reward,
                fee_percentage,
                auto_unjail,
                double_sign_slash_ratio,
                distribution_contracts,
                verify_validators,
                offline_jail_duration,
            },
        ),
        ExecuteMsg::RegisterValidatorKey { pubkey, metadata } => register_validator_key(
            state,
            info,
            pubkey,
            metadata,
        ),
        ExecuteMsg::UpdateMetadata(metadata) => update_metadata(state, info, metadata),
        ExecuteMsg::Jail { operator, duration } => jail(state, env, info, operator, duration),
        ExecuteMsg::Unjail { operator } => unjail(state, env, info, operator),
        ExecuteMsg::Slash { addr, portion } => execute_slash(state, info, addr, portion),
    }
}

/// What `sudo_end_block` returns and how it leaves the state: what the end
/// of the block gives and, in the first block of a new epoch, the messages
/// that share out the reward of the epoch after them.
pub open spec fn sudo_end_block_ensures(
    pre: &Valset,
    env: &Env,
    source: &Members,
    fees: u128,
    post: &Valset,
    r: Result<EndBlockOutcome, ContractError>,
) -> bool {
    let rotates = epoch_at(env.block.time, pre.epoch.epoch_length) != pre.epoch.current_epoch;
    let reward = reward_after_fees(pre.config.epoch_reward.amount, pre.config.fee_percentage, fees) as u128;
    let rewards = if rotates {
        reward_msgs(pre, reward)
    } else {
        Seq::empty()
    };
    exists|inner: EndBlockOutcome|
        {
            &&& #[trigger] end_block_ensures(pre, env, source, post, Ok(inner))
            &&& r.is_ok()
            &&& r.unwrap().diff == inner.diff
            &&& r.unwrap().response@ == (ResponseView {
                messages: inner.response@.messages + rewards,
                ..inner.response@
            })
        }
}

/// The end of a block as the host reports it, with the fees `fees` that
/// have accumulated: the set is computed anew where a new epoch has begun,
/// and the reward of the epoch is shared out.
pub fn sudo_end_block(state: &mut Valset, env: &Env, source: &Members, fees: u128) -> (r: Result<
    EndBlockOutcome,
    ContractError,
>)
    requires
        old(state).wf(),
        source.wf(),
        powers_fit(old(state), source.current.entries@, env.block.time.nanos),
    ensures
        sudo_end_block_ensures(old(state), env, source, fees, final(state), r),
{
    let rotates = epoch_of(env.block.time, state.epoch.epoch_length) != state.epoch.current_epoch;
    let outcome = match end_block(state, env, source) {
        Ok(o) => o,
        Err(e) => {
            return Err(e);
        },
    };
    let ghost inner = outcome;
    let EndBlockOutcome { response, diff } = outcome;
    let mut res = response;
    if rotates {
        res.add_messages(distribute_epoch_reward(state, fees));
    } else {
        assert(res@.messages + Seq::<MsgView>::empty() =~= res@.messages);
    }
    proof {
        assert(end_block_ensures(old(state), env, source, state, Ok(inner)));
    }
    Ok(EndBlockOutcome { response: res, diff })
}

/// `v` says of the operator `a` what is on record: its key, its metadata,
/// whether it is in the active set, and its jailing where it has one.
pub open spec fn answers(state: &Valset, a: Seq<char>, v: OperatorResponse) -> bool {
    &&& state.operators@.contains_key(a)
    &&& v.operator@ == a
    &&& v.pubkey matches Pubkey::Ed25519(d) && d@ == state.operators@[a].pubkey.bytes@
    &&& v.metadata == state.operators@[a].metadata
    &&& v.active_validator == state.operators@[a].active_validator
    &&& v.jailed_until == state.jail.at(a)
}

/// What is on record for `operator`, where it is registered.
fn operator_answer(state: &Valset, operator: &String) -> (r: Option<OperatorResponse>)
    requires
        state.wf(),
    ensures
        r.is_some() == state.operators@.contains_key(operator@),
        r matches Some(v) ==> answers(state, operator@, v),
{
    let info = match state.operators.get(operator) {
        Some(i) => i,
        None => {
            return None;
        },
    };
    let jailed_until: Option<JailingPeriod> = match state.jail.get(operator) {
        Some(p) => Some(*p),
        None => None,
    };
    Some(
        OperatorResponse {
            operator: operator.clone(),
            pubkey: info.pubkey.to_pubkey(),
            metadata: info.metadata.clone_metadata(),
            jailed_until,
            active_validator: info.active_validator,
        },
    )
}

/// What is on record for `operator`; nothing where it is not registered.
pub fn query_validator(state: &Valset, operator: &String) -> (r: ValidatorResponse)
    requires
        state.wf(),
    ensures
        r.validator.is_some() == state.operators@.contains_key(operator@),
        r.validator matches Some(v) ==> answers(state, operator@, v),
{
    ValidatorResponse { validator: operator_answer(state, operator) }
}

/// The largest number of operators that one listing holds.
pub const MAX_LIMIT: u32 = 100;

/// The number of operators that a listing holds where none is asked for.
pub const DEFAULT_LIMIT: u32 = 30;

/// The number of operators that a listing holds for the limit asked for.
pub open spec fn page_size(limit: Option<u32>) -> int {
    match limit {
        Some(l) => if l < MAX_LIMIT {
            l as int
        } else {
            MAX_LIMIT as int
        },
        None => DEFAULT_LIMIT as int,
    }
}

/// The address `a` comes after the bound `start`; every address does where there is no bound.
pub open spec fn comes_after(start: Option<String>, a: Seq<char>) -> bool {
    match start {
        Some(s) => addr_before(s@, a),
        None => true,
    }
}

/// The registered operators among the first `n` of the addresses `keys` that come after `start`, in order.
pub open spec fn listed(state: &Valset, keys: Seq<Seq<char>>, start: Option<String>, n: int) -> Seq<Seq<char>>
    decreases n,
{
    if n <= 0 {
        Seq::empty()
    } else {
        let rest = listed(state, keys, start, n - 1);
        if state.operators@.contains_key(keys[n - 1]) && comes_after(start, keys[n - 1]) {
            rest.push(keys[n - 1])
        } else {
            rest
        }
    }
}

/// `out` says what is on record for the first `limit` of the registered
/// operators among `keys` that come after `start`, in the order of `keys`.
pub open spec fn lists(
    state: &Valset,
    keys: Seq<Seq<char>>,
    start: Option<String>,
    limit: int,
    out: Seq<OperatorResponse>,
) -> bool {
    let all = listed(state, keys, start, keys.len() as int);
    let want = if all.len() <= limit {
        all
    } else {
        all.take(limit)
    };
    &&& out.len() == want.len()
    &&& forall|i: int| 0 <= i < out.len() ==> answers(state, want[i], #[trigger] out[i])
}

/// What is listed of fewer addresses is the beginning of what is listed of more.
proof fn lemma_listed_prefix(state: &Valset, keys: Seq<Seq<char>>, start: Option<String>, n: int, m: int)
    requires
        0 <= n <= m,
    ensures
        listed(state, keys, start, n).len() <= listed(state, keys, start, m).len(),
        listed(state, keys, start, m).take(listed(state, keys, start, n).len() as int) == listed(
            state,
            keys,
            start,
            n,
        ),
    decreases m - n,
{
    let short = listed(state, keys, start, n);
    if n == m {
        assert(short.take(short.len() as int) =~= short);
    } else {
        lemma_listed_prefix(state, keys, start, n, m - 1);
        let mid = listed(state, keys, start, m - 1);
        let long = listed(state, keys, start, m);
        assert(long.take(short.len() as int) =~= mid.take(short.len() as int));
    }
}

/// Whether the address `a` comes after the bound `start`.
fn is_after(start: &Option<String>, a: &String) -> (r: bool)
    ensures
        r == comes_after(*start, a@),
{
    match start {
        Some(s) => matches!(side_of(s, a), Side::Before),
        None => true,
    }
}

/// What is on record for the first operators among the keys of `map` that come after `start_after`.
fn list_operators<V>(state: &Valset, map: &AddrMap<V>, start_after: &Option<String>, limit: Option<u32>) -> (r: Vec<
    OperatorResponse,
>)
    requires
        state.wf(),
    ensures
        lists(state, keys_of(map.entries@), *start_after, page_size(limit), r@),
{
    let cap: usize = match limit {
        Some(l) => if l < MAX_LIMIT {
            l as usize
        } else {
            MAX_LIMIT as usize
        },
        None => DEFAULT_LIMIT as usize,
    };
    let ghost keys = keys_of(map.entries@);
    let mut out: Vec<OperatorResponse> = Vec::new();
    let mut i: usize = 0;
    while i < map.entries.len() && out.len() < cap
        invariant
            state.wf(),
            keys == keys_of(map.entries@),
            cap == page_size(limit),
            i <= map.entries@.len(),
            out@.len() <= cap,
            out@.len() == listed(state, keys, *start_after, i as int).len(),
            forall|k: int|
                0 <= k < out@.len() ==> answers(
                    state,
                    listed(state, keys, *start_after, i as int)[k],
                    #[trigger] out@[k],
                ),
        decreases map.entries@.len() - i,
    {
        let key = &map.entries[i].key;
        assert(keys[i as int] == key@);
        if is_after(start_after, key) {
            match operator_answer(state, key) {
                Some(v) => {
                    out.push(v);
                },
                None => {},
            }
        }
        i = i + 1;
    }
    proof {
        let n = keys.len() as int;
        lemma_listed_prefix(state, keys, *start_after, i as int, n);
        let all = listed(state, keys, *start_after, n);
        if all.len() <= cap {
            assert(all.take(out@.len() as int) =~= all);
        }
    }
    out
}

/// The registered operators after `start_after` in address order, as many
/// as the limit allows, each with what is on record for it.
pub fn list_validators(state: &Valset, start_after: Option<String>, limit: Option<u32>) -> (r: ListValidatorResponse)
    requires
        state.wf(),
    ensures
        lists(state, keys_of(state.operators.entries@), start_after, page_size(limit), r.validators@),
{
    ListValidatorResponse { validators: list_operators(state, &state.operators, &start_after, limit) }
}

/// The operators with a jailing on record after `start_after` in address
/// order, as many as the limit allows, each with what is on record for it.
pub fn list_jailed_validators(state: &Valset, start_after: Option<String>, limit: Option<u32>) -> (r:
    ListValidatorResponse)
    requires
        state.wf(),
    ensures
        lists(state, keys_of(state.jail.entries@), start_after, page_size(limit), r.validators@),
{
    ListValidatorResponse { validators: list_operators(state, &state.jail, &start_after, limit) }
}

/// The settings of the engine.
pub fn query_config(state: &Valset) -> (r: &Config)
    ensures
        *r == state.config,
{
    &state.config
}

} // verus!
