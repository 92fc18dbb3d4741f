//! The operations of the validator engine.

use crate::decimal::{lemma_portion_bounds, portion_of, share_of, Decimal, DECIMAL_FRACTIONAL};
use crate::error::ContractError;
use crate::keyed::{seq_sum, AddrMap, Entry};
use crate::members::{lemma_ranks_total, lemma_ranks_transitive, outranks, ranks_above, Members};
use crate::types::{
    attr_view, empty_response, lemma_views_push, views, BlockInfo, Env, EventView, Event, MessageInfo, Msg,
    MsgView, Response, ResponseView, Timestamp, NANOS_PER_SECOND,
};
use crate::keyed::{lemma_sum_bounds, lemma_sum_le, lemma_sum_linear};
use crate::stake::claim::{lemma_sum_prefix, lemma_sum_push};
use crate::decimal::validate_portion;
use crate::types::{coin, CoinView, Member, MemberView};
use crate::valset::msg::{
    instantiate_fault, metadata_fault, operator_fault, reports, reports_fault, EpochResponse, InstantiateMsg,
    JailingDuration, JailingEnd, JailingPeriod, OperatorInitInfo, ValidatorMetadata,
};
use crate::valset::msg::byte_len;
use crate::types::Coin;
use crate::time::Duration;
use crate::valset::state::{Config, EpochInfo};
use crate::controllers::{opt_text, Admin};
use crate::valset::state::{
    contract_ratios, ed25519_of, epoch_at, jailing_over, same_bytes, scale_of, DistributionContract,
    Ed25519Pubkey, OperatorInfo, Pubkey, PubkeyView, KeyKind, UpdateView, ValidatorDiff, ValidatorInfo,
    ValidatorUpdate, ValidatorView, Valset,
};
use vstd::prelude::*;

verus! {

/// The epoch to which the time `time` belongs.
pub fn epoch_of(time: Timestamp, epoch_length: u64) -> (r: u64)
    requires
        epoch_length >= 1,
    ensures
        r == epoch_at(time, epoch_length),
{
    (time.nanos / NANOS_PER_SECOND) / epoch_length
}

/// Some operator on record holds the key `bytes`.
pub open spec fn key_taken(state: &Valset, bytes: Seq<u8>) -> bool {
    exists|a: Seq<char>| #[trigger] state.operators@.contains_key(a) && state.operators@[a].pubkey.bytes@ == bytes
}

/// Whether some operator on record holds the key `bytes`.
pub fn key_is_taken(state: &Valset, bytes: &Vec<u8>) -> (r: bool)
    requires
        state.wf(),
    ensures
        r == key_taken(state, bytes@),
{
    let mut i: usize = 0;
    while i < state.operators.entries.len()
        invariant
            state.wf(),
            i <= state.operators.entries@.len(),
            forall|j: int| 0 <= j < i ==> (#[trigger] state.operators.entries@[j]).value.pubkey.bytes@ != bytes@,
        decreases state.operators.entries@.len() - i,
    {
        if same_bytes(&state.operators.entries[i].value.pubkey.bytes, bytes) {
            proof {
                state.operators.lemma_slot(i as int);
            }
            return true;
        }
        i = i + 1;
    }
    proof {
        if key_taken(state, bytes@) {
            let a = choose|a: Seq<char>| #[trigger]
                state.operators@.contains_key(a) && state.operators@[a].pubkey.bytes@ == bytes@;
            let j = state.operators.slot(a);
            state.operators.lemma_slot(j);
        }
    }
    false
}

/// What an operation on an operator reports.
pub open spec fn operator_response(action: Seq<char>, operator: Seq<char>) -> ResponseView {
    ResponseView {
        attributes: seq![attr_view("action"@, action), attr_view("operator"@, operator)],
        ..empty_response()
    }
}

fn operator_reply(action: &str, operator: &String) -> (res: Response)
    ensures
        res@ == operator_response(action@, operator@),
{
    let mut res = Response::new();
    res.add_attribute_str("action", action);
    res.add_attribute("operator", operator.clone());
    assert(res@.attributes =~= operator_response(action@, operator@).attributes);
    res
}

/// `post` is `pre` with the operator `operator` bound to the key `bytes` with `metadata`, not active.
pub open spec fn bound(
    pre: &Valset,
    post: &Valset,
    operator: Seq<char>,
    bytes: Seq<u8>,
    metadata: ValidatorMetadata,
) -> bool {
    &&& post.operators@.dom() == pre.operators@.dom().insert(operator)
    &&& forall|a: Seq<char>| a != operator && pre.operators@.contains_key(a) ==> post.operators@[a]
        == pre.operators@[a]
    &&& post.operators@[operator].pubkey.bytes@ == bytes
    &&& post.operators@[operator].metadata == metadata
    &&& !post.operators@[operator].active_validator
}

/// Binds `operator` to `key`. Fails where it has a key already and where another operator holds the key.
fn bind_key(state: &mut Valset, operator: &String, key: Ed25519Pubkey, metadata: ValidatorMetadata) -> (r: Result<
    (),
    ContractError,
>)
    requires
        old(state).wf(),
        key.wf(),
    ensures
        final(state).wf(),
        final(state).admin == old(state).admin,
        final(state).config == old(state).config,
        final(state).epoch == old(state).epoch,
        final(state).jail == old(state).jail,
        final(state).validators == old(state).validators,
        final(state).pending == old(state).pending,
        r.is_err() ==> *final(state) == *old(state),
        if old(state).operators@.contains_key(operator@) {
            r == Err::<(), ContractError>(ContractError::AlreadyRegistered)
        } else if key_taken(old(state), key.bytes@) {
            r == Err::<(), ContractError>(ContractError::DuplicatePubkey)
        } else {
            r.is_ok() && bound(old(state), final(state), operator@, key.bytes@, metadata)
        },
{
    if state.operators.contains(operator) {
        return Err(ContractError::AlreadyRegistered);
    }
    if key_is_taken(state, &key.bytes) {
        return Err(ContractError::DuplicatePubkey);
    }
    let op = OperatorInfo { pubkey: key, metadata, active_validator: false };
    state.operators.insert(operator.clone(), op);
    proof {
        assert(state.operators@.dom() =~= old(state).operators@.dom().insert(operator@));
        assert forall|a: Seq<char>, b: Seq<char>|
            state.operators@.contains_key(a) && state.operators@.contains_key(b) && a != b implies (
        #[trigger] state.operators@[a]).pubkey.bytes@ != (#[trigger] state.operators@[b]).pubkey.bytes@ by {
            if a == operator@ {
                assert(old(state).operators@.contains_key(b));
            } else if b == operator@ {
                assert(old(state).operators@.contains_key(a));
            } else {
                assert(old(state).operators@.contains_key(a) && old(state).operators@.contains_key(b));
            }
        }
    }
    Ok(())
}

/// What `register_validator_key` returns and how it leaves the state.
pub open spec fn register_validator_key_ensures(
    pre: &Valset,
    info: &MessageInfo,
    pubkey: Pubkey,
    metadata: ValidatorMetadata,
    post: &Valset,
    r: Result<Response, ContractError>,
) -> bool {
    &&& post.wf()
    &&& post.admin == pre.admin
    &&& post.config == pre.config
    &&& post.epoch == pre.epoch
    &&& post.jail == pre.jail
    &&& post.validators == pre.validators
    &&& post.pending == pre.pending
    &&& r.is_err() ==> *post == *pre
    &&& if metadata_fault(metadata) is Some {
        r.is_err() && reports(r.unwrap_err(), metadata_fault(metadata)->0)
    } else if ed25519_of(pubkey) is None {
        r == Err::<Response, ContractError>(ContractError::InvalidPubkey)
    } else if pre.operators@.contains_key(info.sender@) {
        r == Err::<Response, ContractError>(ContractError::AlreadyRegistered)
    } else if key_taken(pre, ed25519_of(pubkey)->0) {
        r == Err::<Response, ContractError>(ContractError::DuplicatePubkey)
    } else {
        &&& r.is_ok()
        &&& r.unwrap()@ == operator_response("register_validator_key"@, info.sender@)
        &&& bound(pre, post, info.sender@, ed25519_of(pubkey)->0, metadata)
    }
}

/// Binds the sender to the consensus key `pubkey`, once and for all, with
/// the metadata `metadata`. Fails where the metadata is out of order, where
/// the key is no Ed25519 key of 32 bytes, where the sender has a key
/// already, and where another operator holds the key.
pub fn register_validator_key(state: &mut Valset, info: &MessageInfo, pubkey: Pubkey, metadata: ValidatorMetadata) -> (r:
    Result<Response, ContractError>)
    requires
        old(state).wf(),
    ensures
        register_validator_key_ensures(old(state), info, pubkey, metadata, final(state), r),
{
    match metadata.validate() {
        Ok(_) => {},
        Err(e) => {
            return Err(e);
        },
    }
    let key = match Ed25519Pubkey::try_from(&pubkey) {
        Some(k) => k,
        None => {
            return Err(ContractError::InvalidPubkey);
        },
    };
    match bind_key(state, &info.sender, key, metadata) {
        Ok(_) => {},
        Err(e) => {
            return Err(e);
        },
    }
    Ok(operator_reply("register_validator_key", &info.sender))
}

/// What `update_metadata` returns and how it leaves the state.
pub open spec fn update_metadata_ensures(
    pre: &Valset,
    info: &MessageInfo,
    metadata: ValidatorMetadata,
    post: &Valset,
    r: Result<Response, ContractError>,
) -> bool {
    &&& post.wf()
    &&& post.admin == pre.admin
    &&& post.config == pre.config
    &&& post.epoch == pre.epoch
    &&& post.jail == pre.jail
    &&& post.validators == pre.validators
    &&& post.pending == pre.pending
    &&& r.is_err() ==> *post == *pre
    &&& if metadata_fault(metadata) is Some {
        r.is_err() && reports(r.unwrap_err(), metadata_fault(metadata)->0)
    } else if !pre.operators@.contains_key(info.sender@) {
        r == Err::<Response, ContractError>(ContractError::OperatorNotFound)
    } else {
        &&& r.is_ok()
        &&& r.unwrap()@ == operator_response("update_metadata"@, info.sender@)
        &&& post.operators@.dom() == pre.operators@.dom()
        &&& forall|a: Seq<char>| a != info.sender@ && pre.operators@.contains_key(a) ==> post.operators@[a]
            == pre.operators@[a]
        &&& post.operators@[info.sender@].pubkey.bytes@ == pre.operators@[info.sender@].pubkey.bytes@
        &&& post.operators@[info.sender@].metadata == metadata
        &&& post.operators@[info.sender@].active_validator == pre.operators@[info.sender@].active_validator
    }
}

/// Replaces the metadata of the sender, which must be an operator, by `metadata`, which must be in order.
pub fn update_metadata(state: &mut Valset, info: &MessageInfo, metadata: ValidatorMetadata) -> (r: Result<
    Response,
    ContractError,
>)
    requires
        old(state).wf(),
    ensures
        update_metadata_ensures(old(state), info, metadata, final(state), r),
{
    match metadata.validate() {
        Ok(_) => {},
        Err(e) => {
            return Err(e);
        },
    }
    let op = match state.operators.get(&info.sender) {
        Some(o) => OperatorInfo {
            pubkey: Ed25519Pubkey { bytes: o.pubkey.bytes.clone() },
            metadata,
            active_validator: o.active_validator,
        },
        None => {
            return Err(ContractError::OperatorNotFound);
        },
    };
    state.operators.insert(info.sender.clone(), op);
    proof {
        assert(state.operators@.dom() =~= old(state).operators@.dom());
        assert forall|a: Seq<char>, b: Seq<char>|
            state.operators@.contains_key(a) && state.operators@.contains_key(b) && a != b implies (
        #[trigger] state.operators@[a]).pubkey.bytes@ != (#[trigger] state.operators@[b]).pubkey.bytes@ by {
            assert(old(state).operators@.contains_key(a) && old(state).operators@.contains_key(b));
            assert(state.operators@[a].pubkey.bytes@ == old(state).operators@[a].pubkey.bytes@);
            assert(state.operators@[b].pubkey.bytes@ == old(state).operators@[b].pubkey.bytes@);
        }
    }
    Ok(operator_reply("update_metadata", &info.sender))
}

/// The jailing that begins at `start` and lasts for `duration`.
pub open spec fn jailing_from(duration: JailingDuration, start: Timestamp) -> JailingPeriod {
    JailingPeriod {
        start,
        end: match duration {
            JailingDuration::Duration(d) => JailingEnd::Until(
                crate::time::Expiration { at: Timestamp { nanos: (start.nanos + d.secs * NANOS_PER_SECOND) as u64 } },
            ),
            JailingDuration::Forever => JailingEnd::Forever,
        },
    }
}

/// What `jail` returns and how it leaves the state.
pub open spec fn jail_ensures(
    pre: &Valset,
    env: &Env,
    info: &MessageInfo,
    operator: String,
    duration: JailingDuration,
    post: &Valset,
    r: Result<Response, ContractError>,
) -> bool {
    &&& post.wf()
    &&& post.admin == pre.admin
    &&& post.config == pre.config
    &&& post.epoch == pre.epoch
    &&& post.operators == pre.operators
    &&& post.validators == pre.validators
    &&& post.pending == pre.pending
    &&& r.is_err() ==> *post == *pre
    &&& if pre.admin@ != Some(info.sender@) {
        r == Err::<Response, ContractError>(ContractError::NotAdmin)
    } else if !pre.operators@.contains_key(operator@) {
        r == Err::<Response, ContractError>(ContractError::OperatorNotFound)
    } else {
        &&& r.is_ok()
        &&& r.unwrap()@ == operator_response("jail"@, operator@)
        &&& post.jail@ == pre.jail@.insert(operator@, jailing_from(duration, env.block.time))
    }
}

/// Jails the operator `operator` from now on, for `duration`. Only the admin may do so.
pub fn jail(state: &mut Valset, env: &Env, info: &MessageInfo, operator: String, duration: JailingDuration) -> (r:
    Result<Response, ContractError>)
    requires
        old(state).wf(),
        duration matches JailingDuration::Duration(d) ==> d.fits_after(env.block.time),
    ensures
        jail_ensures(old(state), env, info, operator, duration, final(state), r),
{
    if !state.admin.is_admin(&info.sender) {
        return Err(ContractError::NotAdmin);
    }
    if !state.operators.contains(&operator) {
        return Err(ContractError::OperatorNotFound);
    }
    let period = JailingPeriod::from_duration(duration, &env.block);
    state.jail.insert(operator.clone(), period);
    Ok(operator_reply("jail", &operator))
}

/// The operator that an unjailing names: the one given, or else the sender.
pub open spec fn unjailed_operator(operator: Option<String>, sender: Seq<char>) -> Seq<char> {
    match operator {
        Some(o) => o@,
        None => sender,
    }
}

/// What `unjail` returns and how it leaves the state.
pub open spec fn unjail_ensures(
    pre: &Valset,
    env: &Env,
    info: &MessageInfo,
    operator: Option<String>,
    post: &Valset,
    r: Result<Response, ContractError>,
) -> bool {
    let who = unjailed_operator(operator, info.sender@);
    let is_admin = pre.admin@ == Some(info.sender@);
    &&& post.wf()
    &&& post.admin == pre.admin
    &&& post.config == pre.config
    &&& post.epoch == pre.epoch
    &&& post.operators == pre.operators
    &&& post.validators == pre.validators
    &&& post.pending == pre.pending
    &&& r.is_err() ==> *post == *pre
    &&& if who != info.sender@ && !is_admin {
        r == Err::<Response, ContractError>(ContractError::NotAdmin)
    } else if !pre.jail@.contains_key(who) {
        r.is_ok() && r.unwrap()@ == operator_response("unjail"@, who) && *post == *pre
    } else if pre.jail@[who].end == JailingEnd::Forever {
        r == Err::<Response, ContractError>(ContractError::JailingNotExpired)
    } else if !is_admin && !jailing_over(pre.jail@[who], env.block.time.nanos) {
        r == Err::<Response, ContractError>(ContractError::JailingNotExpired)
    } else {
        &&& r.is_ok()
        &&& r.unwrap()@ == operator_response("unjail"@, who)
        &&& post.jail@ == pre.jail@.remove(who)
    }
}

/// Ends the jailing of `operator`, or of the sender where none is named. The
/// admin may unjail anyone at any time; anyone else only itself, and only
/// when the time of the jailing is over. A jailing that lasts forever is
/// never ended. Nothing happens where the operator is not jailed.
pub fn unjail(state: &mut Valset, env: &Env, info: &MessageInfo, operator: Option<String>) -> (r: Result<
    Response,
    ContractError,
>)
    requires
        old(state).wf(),
    ensures
        unjail_ensures(old(state), env, info, operator, final(state), r),
{
    let ghost who = unjailed_operator(operator, info.sender@);
    let target = match operator {
        Some(o) => o,
        None => info.sender.clone(),
    };
    assert(target@ == who);
    let is_admin = state.admin.is_admin(&info.sender);
    if target != info.sender && !is_admin {
        return Err(ContractError::NotAdmin);
    }
    let period = match state.jail.get(&target) {
        Some(p) => *p,
        None => {
            return Ok(operator_reply("unjail", &target));
        },
    };
    if period.is_forever() {
        return Err(ContractError::JailingNotExpired);
    }
    if !(is_admin || period.is_expired(&env.block)) {
        return Err(ContractError::JailingNotExpired);
    }
    state.jail.remove(&target);
    Ok(operator_reply("unjail", &target))
}

/// The member `e` of the membership source can be a validator at the time
/// `now`: it has the least points, is an operator, and is not jailed.
pub open spec fn eligible(state: &Valset, e: Entry<u64>, now: u64) -> bool {
    &&& e.value >= state.config.min_points
    &&& state.operators@.contains_key(e.key@)
    &&& !state.jailed(e.key@, now)
}

/// The validator that the member `e` is: the operator with its key and with
/// its points, scaled, as its power.
pub open spec fn validator_of(state: &Valset, e: Entry<u64>) -> ValidatorView {
    ValidatorView {
        operator: e.key@,
        pubkey: PubkeyView { kind: KeyKind::Ed25519, bytes: state.operators@[e.key@].pubkey.bytes@ },
        power: (e.value * scale_of(state.config.scaling)) as u64,
    }
}

/// The power of every member that can be a validator fits in 64 bits.
pub open spec fn powers_fit(state: &Valset, entries: Seq<Entry<u64>>, now: u64) -> bool {
    forall|j: int|
        0 <= j < entries.len() && eligible(state, #[trigger] entries[j], now) ==> entries[j].value * scale_of(
            state.config.scaling,
        ) <= u64::MAX
}

/// `out` are the members at the positions `idx`, which are the highest
/// ranked of those that can be validators, from the highest down, as many as
/// `limit` allows: a member that can be a validator is missing only from a
/// full set, whose last member it ranks below.
pub open spec fn chosen(
    state: &Valset,
    entries: Seq<Entry<u64>>,
    now: u64,
    limit: int,
    out: Seq<ValidatorView>,
    idx: Seq<int>,
) -> bool {
    &&& idx.len() == out.len()
    &&& out.len() <= limit
    &&& forall|i: int|
        0 <= i < idx.len() ==> 0 <= #[trigger] idx[i] < entries.len() && eligible(state, entries[idx[i]], now)
            && out[i] == validator_of(state, entries[idx[i]])
    &&& forall|i: int, j: int|
        0 <= i < j < idx.len() ==> ranks_above(
            entries[#[trigger] idx[i]].value,
            entries[idx[i]].key@,
            entries[#[trigger] idx[j]].value,
            entries[idx[j]].key@,
        )
    &&& forall|j: int|
        0 <= j < entries.len() && eligible(state, #[trigger] entries[j], now) ==> idx.contains(j) || (out.len()
            == limit && (limit == 0 || ranks_above(
            entries[idx[limit - 1]].value,
            entries[idx[limit - 1]].key@,
            entries[j].value,
            entries[j].key@,
        )))
}

/// `out` is the active set that the members `entries` give at the time `now`.
pub open spec fn selects(state: &Valset, entries: Seq<Entry<u64>>, now: u64, out: Seq<ValidatorView>) -> bool {
    exists|idx: Seq<int>| #[trigger] chosen(state, entries, now, state.config.max_validators as int, out, idx)
}

/// The member at `k` can be a validator and, where `last` is given, ranks below the member at `last`.
pub open spec fn in_line(state: &Valset, entries: Seq<Entry<u64>>, now: u64, last: Option<usize>, k: int) -> bool {
    &&& eligible(state, entries[k], now)
    &&& match last {
        Some(l) => ranks_above(entries[l as int].value, entries[l as int].key@, entries[k].value, entries[k].key@),
        None => true,
    }
}

/// Whether the operator `addr` counts as jailed at the time of the block.
pub fn is_jailed(state: &Valset, addr: &String, block: &BlockInfo) -> (r: bool)
    requires
        state.wf(),
    ensures
        r == state.jailed(addr@, block.time.nanos),
{
    match state.jail.get(addr) {
        Some(period) => !(state.config.auto_unjail && period.is_expired(block)),
        None => false,
    }
}

/// The position of the highest ranked member that can be a validator and,
/// where `last` is given, ranks below the member at `last`.
fn next_eligible(state: &Valset, source: &Members, block: &BlockInfo, last: Option<usize>) -> (r: Option<usize>)
    requires
        state.wf(),
        source.wf(),
        last is Some ==> last->0 < source.current.entries@.len(),
    ensures
        match r {
            Some(b) => {
                &&& b < source.current.entries@.len()
                &&& in_line(state, source.current.entries@, block.time.nanos, last, b as int)
                &&& forall|k: int|
                    0 <= k < source.current.entries@.len() && in_line(
                        state,
                        source.current.entries@,
                        block.time.nanos,
                        last,
                        k,
                    ) && k != b ==> ranks_above(
                        source.current.entries@[b as int].value,
                        source.current.entries@[b as int].key@,
                        (#[trigger] source.current.entries@[k]).value,
                        source.current.entries@[k].key@,
                    )
            },
            None => forall|k: int|
                0 <= k < source.current.entries@.len() ==> !in_line(
                    state,
                    source.current.entries@,
                    block.time.nanos,
                    last,
                    k,
                ),
        },
{
    let entries = &source.current.entries;
    let ghost now = block.time.nanos;
    let mut best: Option<usize> = None;
    let mut k: usize = 0;
    while k < entries.len()
        invariant
            state.wf(),
            source.wf(),
            entries == &source.current.entries,
            now == block.time.nanos,
            k <= entries@.len(),
            last is Some ==> last->0 < entries@.len(),
            match best {
                Some(b) => {
                    &&& b < k
                    &&& in_line(state, entries@, now, last, b as int)
                    &&& forall|x: int|
                        0 <= x < k && in_line(state, entries@, now, last, x) && x != b ==> ranks_above(
                            entries@[b as int].value,
                            entries@[b as int].key@,
                            (#[trigger] entries@[x]).value,
                            entries@[x].key@,
                        )
                },
                None => forall|x: int| 0 <= x < k ==> !in_line(state, entries@, now, last, x),
            },
        decreases entries@.len() - k,
    {
        let e = &entries[k];
        let under_last = match last {
            Some(l) => outranks(entries[l].value, &entries[l].key, e.value, &e.key),
            None => true,
        };
        if under_last && e.value >= state.config.min_points && state.operators.contains(&e.key) && !is_jailed(
            state,
            &e.key,
            block,
        ) {
            match best {
                Some(b) => {
                    proof {
                        source.current.lemma_slot(k as int);
                        source.current.lemma_slot(b as int);
                        lemma_ranks_total(e.value, e.key@, entries@[b as int].value, entries@[b as int].key@);
                    }
                    if outranks(e.value, &e.key, entries[b].value, &entries[b].key) {
                        proof {
                            assert forall|x: int|
                                0 <= x < k + 1 && in_line(state, entries@, now, last, x) && x != k implies ranks_above(
                                e.value,
                                e.key@,
                                (#[trigger] entries@[x]).value,
                                entries@[x].key@,
                            ) by {
                                if x != b {
                                    lemma_ranks_transitive(
                                        e.value,
                                        e.key@,
                                        entries@[b as int].value,
                                        entries@[b as int].key@,
                                        entries@[x].value,
                                        entries@[x].key@,
                                    );
                                }
                            }
                        }
                        best = Some(k);
                    }
                },
                None => {
                    best = Some(k);
                },
            }
        }
        k = k + 1;
    }
    best
}

/// The active set that the members of `source` give at the time of the
/// block: of the members that have the least points, are operators and are
/// not jailed, the highest ranked, at most as many as the settings allow,
/// from the highest down. More points rank higher; among equal points the
/// later address does. The power of a validator is its points, scaled.
pub fn calculate_validators(state: &Valset, source: &Members, block: &BlockInfo) -> (r: Vec<ValidatorInfo>)
    requires
        state.wf(),
        source.wf(),
        powers_fit(state, source.current.entries@, block.time.nanos),
    ensures
        selects(state, source.current.entries@, block.time.nanos, views(r@)),
{
    let ghost entries = source.current.entries@;
    let ghost now = block.time.nanos;
    let limit = state.config.max_validators as usize;
    let scaling: u64 = match state.config.scaling {
        Some(s) => s as u64,
        None => 1,
    };
    let mut out: Vec<ValidatorInfo> = Vec::new();
    let ghost mut idx: Seq<int> = Seq::empty();
    let mut last: Option<usize> = None;
    let mut done = false;
    while out.len() < limit && !done
        invariant
            state.wf(),
            source.wf(),
            entries == source.current.entries@,
            now == block.time.nanos,
            limit == state.config.max_validators,
            scaling == scale_of(state.config.scaling),
            powers_fit(state, entries, now),
            idx.len() == out@.len(),
            out@.len() <= limit,
            (last is None) == (out@.len() == 0),
            last is Some ==> last->0 < entries.len() && idx[idx.len() - 1] == last->0,
            forall|i: int|
                0 <= i < idx.len() ==> 0 <= #[trigger] idx[i] < entries.len() && eligible(state, entries[idx[i]], now)
                    && out@[i]@ == validator_of(state, entries[idx[i]]),
            forall|i: int, j: int|
                0 <= i < j < idx.len() ==> ranks_above(
                    entries[#[trigger] idx[i]].value,
                    entries[idx[i]].key@,
                    entries[#[trigger] idx[j]].value,
                    entries[idx[j]].key@,
                ),
            forall|j: int|
                0 <= j < entries.len() && eligible(state, #[trigger] entries[j], now) ==> idx.contains(j)
                    || in_line(state, entries, now, last, j),
            done ==> forall|j: int|
                0 <= j < entries.len() && eligible(state, #[trigger] entries[j], now) ==> idx.contains(j),
        decreases limit - out@.len() + (if done { 0int } else { 1int }),
    {
        match next_eligible(state, source, block, last) {
            Some(b) => {
                let e = &source.current.entries[b];
                let op = state.operators.get(&e.key).unwrap();
                proof {
                    assert(eligible(state, entries[b as int], now));
                }
                let v = ValidatorInfo {
                    operator: e.key.clone(),
                    validator_pubkey: Pubkey::Ed25519(op.pubkey.bytes.clone()),
                    power: e.value * scaling,
                };
                let ghost before = idx;
                proof {
                    idx = idx.push(b as int);
                }
                out.push(v);
                proof {
                    assert forall|i: int, j: int| 0 <= i < j < idx.len() implies ranks_above(
                        entries[#[trigger] idx[i]].value,
                        entries[idx[i]].key@,
                        entries[#[trigger] idx[j]].value,
                        entries[idx[j]].key@,
                    ) by {
                        if j == before.len() {
                            let l = last->0 as int;
                            if i < before.len() - 1 {
                                assert(idx[i] == before[i]);
                                assert(before[before.len() - 1] == l);
                                lemma_ranks_transitive(
                                    entries[idx[i]].value,
                                    entries[idx[i]].key@,
                                    entries[l].value,
                                    entries[l].key@,
                                    entries[b as int].value,
                                    entries[b as int].key@,
                                );
                            } else {
                                assert(idx[i] == l);
                            }
                        } else {
                            assert(idx[i] == before[i] && idx[j] == before[j]);
                        }
                    }
                    assert forall|j: int|
                        0 <= j < entries.len() && eligible(state, #[trigger] entries[j], now) implies idx.contains(j)
                        || in_line(state, entries, now, Some(b), j) by {
                        if before.contains(j) {
                            let i = choose|i: int| 0 <= i < before.len() && before[i] == j;
                            assert(idx[i] == j);
                        } else if j == b as int {
                            assert(idx[before.len() as int] == j);
                        } else {
                            assert(in_line(state, entries, now, last, j));
                        }
                    }
                    assert forall|i: int| 0 <= i < idx.len() implies 0 <= #[trigger] idx[i] < entries.len()
                        && eligible(state, entries[idx[i]], now) && out@[i]@ == validator_of(
                        state,
                        entries[idx[i]],
                    ) by {
                        if i < before.len() {
                            assert(idx[i] == before[i]);
                        }
                    }
                }
                last = Some(b);
            },
            None => {
                done = true;
            },
        }
    }
    proof {
        let o = views(out@);
        assert(chosen(state, entries, now, limit as int, o, idx)) by {
            assert forall|i: int| 0 <= i < idx.len() implies 0 <= #[trigger] idx[i] < entries.len() && eligible(
                state,
                entries[idx[i]],
                now,
            ) && o[i] == validator_of(state, entries[idx[i]]) by {
                assert(o[i] == out@[i]@);
            }
            if !done {
                assert forall|j: int|
                    0 <= j < entries.len() && eligible(state, #[trigger] entries[j], now) implies idx.contains(j)
                    || (o.len() == limit && (limit == 0 || ranks_above(
                    entries[idx[limit - 1]].value,
                    entries[idx[limit - 1]].key@,
                    entries[j].value,
                    entries[j].key@,
                ))) by {
                    if !idx.contains(j) && limit > 0 {
                        assert(in_line(state, entries, now, last, j));
                    }
                }
            }
        }
    }
    out
}

/// The change that puts the validator `v` into the consensus set with its power.
pub open spec fn update_of(v: ValidatorView) -> UpdateView {
    UpdateView { pubkey: v.pubkey, power: v.power }
}

/// The change that takes the validator `v` out of the consensus set.
pub open spec fn removal_of(v: ValidatorView) -> UpdateView {
    UpdateView { pubkey: v.pubkey, power: 0 }
}

/// No validator in `set` holds the key of `v`.
pub open spec fn key_gone(v: ValidatorView, set: Seq<ValidatorView>) -> bool {
    forall|i: int| 0 <= i < set.len() ==> (#[trigger] set[i]).pubkey != v.pubkey
}

/// For every validator of `cur` that is not in `old` with the same power, in order, its update.
pub open spec fn updates_of(cur: Seq<ValidatorView>, old: Seq<ValidatorView>) -> Seq<UpdateView>
    decreases cur.len(),
{
    if cur.len() == 0 {
        Seq::empty()
    } else {
        let before = updates_of(cur.drop_last(), old);
        if old.contains(cur.last()) {
            before
        } else {
            before.push(update_of(cur.last()))
        }
    }
}

/// For every validator of `old` whose key no validator of `cur` holds, in order, its removal.
pub open spec fn removals_of(old: Seq<ValidatorView>, cur: Seq<ValidatorView>) -> Seq<UpdateView>
    decreases old.len(),
{
    if old.len() == 0 {
        Seq::empty()
    } else {
        let before = removals_of(old.drop_last(), cur);
        if key_gone(old.last(), cur) {
            before.push(removal_of(old.last()))
        } else {
            before
        }
    }
}

/// The changes that take the consensus set from `old` to `cur`: the updates, then the removals.
pub open spec fn diff_of(cur: Seq<ValidatorView>, old: Seq<ValidatorView>) -> Seq<UpdateView> {
    updates_of(cur, old) + removals_of(old, cur)
}

/// Whether `v` is in `set`, as the same operator with the same key and power.
fn holds_validator(set: &Vec<ValidatorInfo>, v: &ValidatorInfo) -> (r: bool)
    ensures
        r == views(set@).contains(v@),
{
    let mut i: usize = 0;
    while i < set.len()
        invariant
            i <= set@.len(),
            forall|j: int| 0 <= j < i ==> views(set@)[j] != v@,
        decreases set@.len() - i,
    {
        if set[i].same_as(v) {
            assert(views(set@)[i as int] == v@);
            return true;
        }
        i = i + 1;
    }
    false
}

/// Whether no validator in `set` holds the key of `v`.
fn key_is_gone(v: &ValidatorInfo, set: &Vec<ValidatorInfo>) -> (r: bool)
    ensures
        r == key_gone(v@, views(set@)),
{
    let mut i: usize = 0;
    while i < set.len()
        invariant
            i <= set@.len(),
            forall|j: int| 0 <= j < i ==> (#[trigger] views(set@)[j]).pubkey != v@.pubkey,
        decreases set@.len() - i,
    {
        if set[i].validator_pubkey.same_as(&v.validator_pubkey) {
            assert(views(set@)[i as int].pubkey == v@.pubkey);
            return false;
        }
        i = i + 1;
    }
    true
}

/// The changes that take the consensus set from `old_vals` to `cur_vals`:
/// an update for every validator that is new or has another power, then a
/// removal for every validator whose key is gone.
pub fn calculate_diff(cur_vals: &Vec<ValidatorInfo>, old_vals: &Vec<ValidatorInfo>) -> (r: ValidatorDiff)
    ensures
        views(r.diffs@) == diff_of(views(cur_vals@), views(old_vals@)),
{
    let ghost cur = views(cur_vals@);
    let ghost old = views(old_vals@);
    let mut diffs: Vec<ValidatorUpdate> = Vec::new();
    let mut i: usize = 0;
    proof {
        assert(cur.take(0) =~= Seq::<ValidatorView>::empty());
        assert(views(diffs@) =~= Seq::<UpdateView>::empty());
    }
    while i < cur_vals.len()
        invariant
            i <= cur_vals@.len(),
            cur == views(cur_vals@),
            old == views(old_vals@),
            views(diffs@) == updates_of(cur.take(i as int), old),
        decreases cur_vals@.len() - i,
    {
        let v = &cur_vals[i];
        proof {
            assert(cur.take(i + 1).drop_last() =~= cur.take(i as int));
            assert(cur.take(i + 1).last() == v@);
        }
        if !holds_validator(old_vals, v) {
            let u = ValidatorUpdate { pubkey: v.validator_pubkey.duplicate(), power: v.power };
            proof {
                lemma_views_push(diffs@, u);
            }
            diffs.push(u);
        }
        i = i + 1;
    }
    let ghost ups = views(diffs@);
    let mut j: usize = 0;
    proof {
        assert(cur.take(cur.len() as int) =~= cur);
        assert(old.take(0) =~= Seq::<ValidatorView>::empty());
        assert(ups + Seq::<UpdateView>::empty() =~= ups);
    }
    while j < old_vals.len()
        invariant
            j <= old_vals@.len(),
            cur == views(cur_vals@),
            old == views(old_vals@),
            views(diffs@) == ups + removals_of(old.take(j as int), cur),
        decreases old_vals@.len() - j,
    {
        let v = &old_vals[j];
        proof {
            assert(old.take(j + 1).drop_last() =~= old.take(j as int));
            assert(old.take(j + 1).last() == v@);
        }
        if key_is_gone(v, cur_vals) {
            let u = ValidatorUpdate { pubkey: v.validator_pubkey.duplicate(), power: 0 };
            proof {
                lemma_views_push(diffs@, u);
                assert((ups + removals_of(old.take(j as int), cur)).push(u@) =~= ups + removals_of(
                    old.take(j as int),
                    cur,
                ).push(u@));
            }
            diffs.push(u);
        }
        j = j + 1;
    }
    proof {
        assert(old.take(old.len() as int) =~= old);
    }
    ValidatorDiff { diffs }
}

/// The operators of `cur` that are not in `old`, in order.
pub open spec fn newcomers(cur: Seq<ValidatorView>, old: Seq<ValidatorView>) -> Seq<Seq<char>>
    decreases cur.len(),
{
    if cur.len() == 0 {
        Seq::empty()
    } else {
        let before = newcomers(cur.drop_last(), old);
        if in_set(old, cur.last().operator) {
            before
        } else {
            before.push(cur.last().operator)
        }
    }
}

/// The operator `a` is in the set `set`.
pub open spec fn in_set(set: Seq<ValidatorView>, a: Seq<char>) -> bool {
    exists|i: int| 0 <= i < set.len() && (#[trigger] set[i]).operator == a
}

/// Whether the operator `a` is in the set `set`.
fn is_in_set(set: &Vec<ValidatorInfo>, a: &String) -> (r: bool)
    ensures
        r == in_set(views(set@), a@),
{
    let mut i: usize = 0;
    while i < set.len()
        invariant
            i <= set@.len(),
            forall|j: int| 0 <= j < i ==> (#[trigger] views(set@)[j]).operator != a@,
        decreases set@.len() - i,
    {
        if set[i].operator == *a {
            assert(views(set@)[i as int].operator == a@);
            return true;
        }
        i = i + 1;
    }
    false
}

/// The operators of `cur` that are not in `old`, in order.
fn new_operators(cur: &Vec<ValidatorInfo>, old: &Vec<ValidatorInfo>) -> (r: Vec<String>)
    ensures
        views(r@) == newcomers(views(cur@), views(old@)),
{
    let ghost c = views(cur@);
    let ghost o = views(old@);
    let mut out: Vec<String> = Vec::new();
    let mut i: usize = 0;
    proof {
        assert(c.take(0) =~= Seq::<ValidatorView>::empty());
        assert(views(out@) =~= Seq::<Seq<char>>::empty());
    }
    while i < cur.len()
        invariant
            i <= cur@.len(),
            c == views(cur@),
            o == views(old@),
            views(out@) == newcomers(c.take(i as int), o),
        decreases cur@.len() - i,
    {
        let v = &cur[i];
        proof {
            assert(c.take(i + 1).drop_last() =~= c.take(i as int));
            assert(c.take(i + 1).last() == v@);
        }
        if !is_in_set(old, &v.operator) {
            let name = v.operator.clone();
            proof {
                lemma_views_push(out@, name);
            }
            out.push(name);
        }
        i = i + 1;
    }
    proof {
        assert(c.take(c.len() as int) =~= c);
    }
    out
}

/// The membership of the validator `v` in the group of the validators: its power as its points.
pub open spec fn membership_of(v: ValidatorView) -> MemberView {
    MemberView { addr: v.operator, points: v.power, start_height: None }
}

/// For every validator of `cur` that is not in `old` with the same power, in order, its membership.
pub open spec fn joiners(cur: Seq<ValidatorView>, old: Seq<ValidatorView>) -> Seq<MemberView>
    decreases cur.len(),
{
    if cur.len() == 0 {
        Seq::empty()
    } else {
        let before = joiners(cur.drop_last(), old);
        if old.contains(cur.last()) {
            before
        } else {
            before.push(membership_of(cur.last()))
        }
    }
}

/// What the group of the validators is told when the set goes from `old` to
/// `cur`: the operators that are in the set no longer leave, and every
/// validator that is new or has another power joins with its power as points.
pub open spec fn group_update_of(group: Seq<char>, cur: Seq<ValidatorView>, old: Seq<ValidatorView>) -> MsgView {
    MsgView::UpdateMembers { contract: group, remove: newcomers(old, cur), add: joiners(cur, old) }
}

/// The update that takes the group `group` of the validators from the set `old_vals` to the set `cur_vals`.
pub fn group_update(group: &String, cur_vals: &Vec<ValidatorInfo>, old_vals: &Vec<ValidatorInfo>) -> (r: Msg)
    ensures
        r@ == group_update_of(group@, views(cur_vals@), views(old_vals@)),
{
    let ghost cur = views(cur_vals@);
    let ghost old = views(old_vals@);
    let mut add: Vec<Member> = Vec::new();
    let mut i: usize = 0;
    proof {
        assert(cur.take(0) =~= Seq::<ValidatorView>::empty());
        assert(views(add@) =~= Seq::<MemberView>::empty());
    }
    while i < cur_vals.len()
        invariant
            i <= cur_vals@.len(),
            cur == views(cur_vals@),
            old == views(old_vals@),
            views(add@) == joiners(cur.take(i as int), old),
        decreases cur_vals@.len() - i,
    {
        let v = &cur_vals[i];
        proof {
            assert(cur.take(i + 1).drop_last() =~= cur.take(i as int));
            assert(cur.take(i + 1).last() == v@);
        }
        if !holds_validator(old_vals, v) {
            let m = Member { addr: v.operator.clone(), points: v.power, start_height: None };
            proof {
                lemma_views_push(add@, m);
            }
            add.push(m);
        }
        i = i + 1;
    }
    proof {
        assert(cur.take(cur.len() as int) =~= cur);
    }
    let remove = new_operators(old_vals, cur_vals);
    Msg::UpdateMembers { contract: group.clone(), remove, add }
}

/// The operators of `post` are those of `pre`, each marked as active where it is in `set`.
pub open spec fn marked(pre: &Valset, post: &Valset, set: Seq<ValidatorView>) -> bool {
    &&& post.operators@.dom() == pre.operators@.dom()
    &&& forall|a: Seq<char>| #[trigger]
        pre.operators@.contains_key(a) ==> {
            &&& post.operators@[a].pubkey.bytes@ == pre.operators@[a].pubkey.bytes@
            &&& post.operators@[a].metadata == pre.operators@[a].metadata
            &&& post.operators@[a].active_validator == in_set(set, a)
        }
}

/// Marks every operator as active or not, as it is in `set` or not.
fn mark_active(state: &mut Valset, set: &Vec<ValidatorInfo>)
    requires
        old(state).wf(),
    ensures
        final(state).wf(),
        marked(old(state), final(state), views(set@)),
        final(state).admin == old(state).admin,
        final(state).config == old(state).config,
        final(state).epoch == old(state).epoch,
        final(state).jail == old(state).jail,
        final(state).validators == old(state).validators,
        final(state).pending == old(state).pending,
{
    let ghost pre = *state;
    let n = state.operators.len();
    let mut i: usize = 0;
    while i < n
        invariant
            i <= n,
            pre.wf(),
            state.operators.wf(),
            n == pre.operators.entries@.len(),
            state.operators.entries@.len() == n,
            crate::keyed::keys_of(state.operators.entries@) == crate::keyed::keys_of(pre.operators.entries@),
            state.operators@.dom() == pre.operators@.dom(),
            forall|j: int|
                0 <= j < n ==> {
                    &&& (#[trigger] state.operators.entries@[j]).value.pubkey.bytes@
                        == pre.operators.entries@[j].value.pubkey.bytes@
                    &&& state.operators.entries@[j].value.metadata == pre.operators.entries@[j].value.metadata
                    &&& j < i ==> state.operators.entries@[j].value.active_validator == in_set(
                        views(set@),
                        pre.operators.entries@[j].key@,
                    )
                },
            state.admin == pre.admin,
            state.config == pre.config,
            state.epoch == pre.epoch,
            state.jail == pre.jail,
            state.validators == pre.validators,
            state.pending == pre.pending,
        decreases n - i,
    {
        let ghost cur = state.operators;
        let e = &state.operators.entries[i];
        let key = e.key.clone();
        proof {
            assert(key@ == crate::keyed::keys_of(state.operators.entries@)[i as int]);
            assert(key@ == pre.operators.entries@[i as int].key@);
            cur.lemma_slot(i as int);
        }
        let op = OperatorInfo {
            pubkey: Ed25519Pubkey { bytes: e.value.pubkey.bytes.clone() },
            metadata: e.value.metadata.clone_metadata(),
            active_validator: is_in_set(set, &key),
        };
        state.operators.insert(key, op);
        proof {
            assert(state.operators@.dom() =~= pre.operators@.dom());
            assert(state.operators.entries@.len() == n) by {
                assert(crate::keyed::keys_of(state.operators.entries@).len() == crate::keyed::keys_of(
                    cur.entries@,
                ).len());
            }
            state.operators.lemma_slot(i as int);
            assert(crate::keyed::keys_of(state.operators.entries@)[i as int] == state.operators.entries@[i as int].key@);
            assert(state.operators.entries@[i as int].value == op);
        }
        i = i + 1;
    }
    proof {
        assert forall|a: Seq<char>| #[trigger] pre.operators@.contains_key(a) implies {
            &&& state.operators@[a].pubkey.bytes@ == pre.operators@[a].pubkey.bytes@
            &&& state.operators@[a].metadata == pre.operators@[a].metadata
            &&& state.operators@[a].active_validator == in_set(views(set@), a)
        } by {
            let j = pre.operators.slot(a);
            pre.operators.lemma_slot(j);
            assert(crate::keyed::keys_of(state.operators.entries@)[j] == state.operators.entries@[j].key@);
            state.operators.lemma_slot(j);
        }
        assert forall|a: Seq<char>, b: Seq<char>|
            state.operators@.contains_key(a) && state.operators@.contains_key(b) && a != b implies (
        #[trigger] state.operators@[a]).pubkey.bytes@ != (#[trigger] state.operators@[b]).pubkey.bytes@ by {
            assert(pre.operators@.contains_key(a) && pre.operators@.contains_key(b));
        }
        assert forall|a: Seq<char>| #[trigger] state.operators@.contains_key(a) implies state.operators@[a].pubkey.wf() by {
            assert(pre.operators@.contains_key(a));
        }
    }
}

/// What the end of a block gives: a response and, where the set changed, the changes of the consensus set.
#[derive(Clone, Debug, PartialEq, Eq)]
pub struct EndBlockOutcome {
    pub response: Response,
    pub diff: Option<ValidatorDiff>,
}

/// What a computation reports that found nobody to validate.
pub open spec fn empty_set_response(epoch: u64) -> ResponseView {
    ResponseView {
        events: seq![
            EventView {
                ty: "validator_set_kept"@,
                attributes: seq![
                    attr_view("epoch"@, crate::types::decimal_text(epoch as nat)),
                    attr_view("reason"@, "no member can validate"@),
                ],
            },
        ],
        ..empty_response()
    }
}

/// What a computation reports that found the set `set`: the update for the group of the validators.
pub open spec fn changed_set_response(pre: &Valset, set: Seq<ValidatorView>) -> ResponseView {
    ResponseView {
        messages: seq![group_update_of(pre.config.validator_group@, set, views(pre.validators@))],
        ..empty_response()
    }
}

/// What `end_block` returns and how it leaves the state.
pub open spec fn end_block_ensures(
    pre: &Valset,
    env: &Env,
    source: &Members,
    post: &Valset,
    r: Result<EndBlockOutcome, ContractError>,
) -> bool {
    let epoch = epoch_at(env.block.time, pre.epoch.epoch_length);
    &&& post.wf()
    &&& r.is_ok()
    &&& post.admin == pre.admin
    &&& post.config == pre.config
    &&& post.jail == pre.jail
    &&& if epoch == pre.epoch.current_epoch {
        &&& *post == *pre
        &&& r.unwrap().response@ == empty_response()
        &&& r.unwrap().diff is None
    } else {
        &&& post.epoch.epoch_length == pre.epoch.epoch_length
        &&& post.epoch.current_epoch == epoch
        &&& post.epoch.last_update_time == env.block.time.nanos / NANOS_PER_SECOND
        &&& post.epoch.last_update_height == env.block.height
        &&& exists|set: Seq<ValidatorView>| #[trigger]
            selects(pre, source.current.entries@, env.block.time.nanos, set) && if set.len() == 0 {
                &&& post.operators == pre.operators
                &&& post.validators == pre.validators
                &&& post.pending == pre.pending
                &&& r.unwrap().response@ == empty_set_response(epoch as u64)
                &&& r.unwrap().diff is None
            } else {
                &&& views(post.validators@) == set
                &&& views(post.pending@) == (if pre.config.verify_validators {
                    newcomers(set, views(pre.validators@))
                } else {
                    Seq::empty()
                })
                &&& marked(pre, post, set)
                &&& r.unwrap().response@ == changed_set_response(pre, set)
                &&& r.unwrap().diff is Some
                &&& views(r.unwrap().diff->0.diffs@) == diff_of(set, views(pre.validators@))
            }
    }
}

/// At the end of a block: in the first block of a new epoch the active set
/// is computed anew from the members of `source`, the operators are marked,
/// the group of the validators is told who joins and who leaves, and the
/// changes of the consensus set are returned. Where nobody can validate, the
/// set stays as it is and an event says so.
pub fn end_block(state: &mut Valset, env: &Env, source: &Members) -> (r: Result<EndBlockOutcome, ContractError>)
    requires
        old(state).wf(),
        source.wf(),
        powers_fit(old(state), source.current.entries@, env.block.time.nanos),
    ensures
        end_block_ensures(old(state), env, source, final(state), r),
{
    let epoch = epoch_of(env.block.time, state.epoch.epoch_length);
    if epoch == state.epoch.current_epoch {
        return Ok(EndBlockOutcome { response: Response::new(), diff: None });
    }
    state.epoch = crate::valset::state::EpochInfo {
        epoch_length: state.epoch.epoch_length,
        current_epoch: epoch,
        last_update_time: env.block.time.seconds(),
        last_update_height: env.block.height,
    };
    assert(powers_fit(state, source.current.entries@, env.block.time.nanos)) by {
        assert forall|j: int|
            0 <= j < source.current.entries@.len() implies eligible(
            state,
            #[trigger] source.current.entries@[j],
            env.block.time.nanos,
        ) == eligible(old(state), source.current.entries@[j], env.block.time.nanos) by {}
    }
    let validators = calculate_validators(state, source, &env.block);
    let ghost set = views(validators@);
    proof {
        let idx = choose|idx: Seq<int>| #[trigger]
            chosen(state, source.current.entries@, env.block.time.nanos, state.config.max_validators as int, set, idx);
        assert(chosen(
            old(state),
            source.current.entries@,
            env.block.time.nanos,
            old(state).config.max_validators as int,
            set,
            idx,
        ));
        assert(selects(old(state), source.current.entries@, env.block.time.nanos, set));
    }
    let ghost mid = *state;
    if validators.len() == 0 {
        let mut attributes: Vec<crate::types::Attribute> = Vec::new();
        attributes.push(crate::types::attr("epoch", crate::types::number_text(epoch as u128)));
        attributes.push(crate::types::attr_str("reason", "no member can validate"));
        let evt = Event { ty: String::from_str("validator_set_kept"), attributes };
        let mut res = Response::new();
        res.add_event(evt);
        proof {
            let want = empty_set_response(epoch);
            assert(evt@.attributes =~= want.events[0].attributes);
            assert(res@.events =~= want.events);
        }
        return Ok(EndBlockOutcome { response: res, diff: None });
    }
    let diff = calculate_diff(&validators, &state.validators);
    let update = group_update(&state.config.validator_group, &validators, &state.validators);
    let mut res = Response::new();
    res.add_message(update);
    proof {
        assert(res@.messages =~= changed_set_response(old(state), set).messages);
    }
    let pending = if state.config.verify_validators {
        new_operators(&validators, &state.validators)
    } else {
        let none: Vec<String> = Vec::new();
        assert(views(none@) =~= Seq::<Seq<char>>::empty());
        none
    };
    mark_active(state, &validators);
    state.validators = validators;
    state.pending = pending;
    proof {
        assert(marked(&mid, state, set));
        assert(mid.operators == old(state).operators);
        assert(marked(old(state), state, set));
    }
    Ok(EndBlockOutcome { response: res, diff: Some(diff) })
}

/// The reward of an epoch: the reward of the settings less the part
/// `fee_percentage` of the fees `fees`, and nothing where that part is the larger.
pub open spec fn reward_after_fees(epoch_reward: u128, fee_percentage: Decimal, fees: u128) -> int {
    let cut = portion_of(fees, fee_percentage);
    if cut >= epoch_reward {
        0
    } else {
        epoch_reward - cut
    }
}

/// The reward of an epoch in which the fees `fees` have accumulated.
pub fn effective_reward(epoch_reward: u128, fee_percentage: Decimal, fees: u128) -> (r: u128)
    requires
        fee_percentage.atomics <= DECIMAL_FRACTIONAL,
    ensures
        r == reward_after_fees(epoch_reward, fee_percentage, fees),
        r <= epoch_reward,
{
    let cut = share_of(fees, fee_percentage);
    if cut >= epoch_reward {
        0
    } else {
        epoch_reward - cut
    }
}

/// The shares of the reward `reward` that go to the contracts: for each its ratio of the reward, rounded down.
pub open spec fn contract_shares(reward: u128, contracts: Seq<DistributionContract>) -> Seq<int> {
    Seq::new(contracts.len(), |i: int| portion_of(reward, contracts[i].ratio))
}

/// Ratios that sum to at most one are each at most one, and the shares that
/// they give of a reward sum to at most the reward.
pub proof fn lemma_shares_within_reward(reward: u128, contracts: Seq<DistributionContract>)
    requires
        seq_sum(contract_ratios(contracts)) <= DECIMAL_FRACTIONAL,
    ensures
        forall|i: int| 0 <= i < contracts.len() ==> (#[trigger] contracts[i]).ratio.atomics <= DECIMAL_FRACTIONAL,
        forall|i: int| 0 <= i < contracts.len() ==> 0 <= #[trigger] contract_shares(reward, contracts)[i] <= reward,
        0 <= seq_sum(contract_shares(reward, contracts)) <= reward,
{
    let rs = contract_ratios(contracts);
    let sh = contract_shares(reward, contracts);
    let f = DECIMAL_FRACTIONAL as int;
    let r = reward as int;
    assert forall|i: int| 0 <= i < contracts.len() implies (#[trigger] contracts[i]).ratio.atomics
        <= DECIMAL_FRACTIONAL && 0 <= sh[i] <= reward by {
        assert forall|j: int| 0 <= j < rs.len() implies rs[j] >= 0 by {}
        lemma_sum_bounds(rs, i);
        lemma_portion_bounds(reward, contracts[i].ratio);
    }
    let scaled = Seq::new(contracts.len(), |i: int| sh[i] * f);
    let weighted = Seq::new(contracts.len(), |i: int| r * rs[i]);
    let zeros = Seq::new(contracts.len(), |i: int| 0int);
    assert forall|i: int| 0 <= i < contracts.len() implies scaled[i] <= weighted[i] && scaled[i] == zeros[i]
        + f * sh[i] && weighted[i] == zeros[i] + r * rs[i] by {
        let x = r * rs[i];
        assert(sh[i] == x / f);
        assert((x / f) * f <= x && (x / f) * f == f * (x / f)) by (nonlinear_arith)
            requires
                f > 0,
        ;
    }
    lemma_sum_le(scaled, weighted);
    lemma_sum_linear(zeros, sh, scaled, f);
    lemma_sum_linear(zeros, rs, weighted, r);
    crate::keyed::lemma_sum_nonneg(sh);
    assert(seq_sum(zeros) == 0) by {
        lemma_sum_linear(zeros, zeros, zeros, 1);
    }
    let total = seq_sum(sh);
    let ratio_sum = seq_sum(rs);
    assert(total <= r) by (nonlinear_arith)
        requires
            f * total <= r * ratio_sum,
            ratio_sum <= f,
            r >= 0,
            f > 0,
    ;
}

/// The messages that share out the reward `reward`: to every distribution
/// contract its share, and the rest to the contract of the validators.
pub open spec fn reward_msgs(state: &Valset, reward: u128) -> Seq<MsgView> {
    let contracts = state.config.distribution_contracts@;
    let shares = contract_shares(reward, contracts);
    let denom = state.config.epoch_reward.denom@;
    Seq::new(
        contracts.len(),
        |i: int|
            MsgView::DistributeRewards {
                contract: contracts[i].contract@,
                funds: CoinView { denom, amount: shares[i] as u128 },
            },
    ).push(
        MsgView::DistributeRewards {
            contract: state.config.validator_group@,
            funds: CoinView { denom, amount: (reward - seq_sum(shares)) as u128 },
        },
    )
}

/// Shares out the reward of an epoch in which the fees `fees` have
/// accumulated: every distribution contract gets its ratio of the reward,
/// rounded down, and the contract of the validators gets the rest.
pub fn distribute_epoch_reward(state: &Valset, fees: u128) -> (r: Vec<Msg>)
    requires
        state.wf(),
    ensures
        views(r@) == reward_msgs(
            state,
            reward_after_fees(state.config.epoch_reward.amount, state.config.fee_percentage, fees) as u128,
        ),
{
    let reward = effective_reward(state.config.epoch_reward.amount, state.config.fee_percentage, fees);
    let ghost contracts = state.config.distribution_contracts@;
    let ghost shares = contract_shares(reward, contracts);
    let ghost want = reward_msgs(state, reward);
    proof {
        lemma_shares_within_reward(reward, contracts);
        assert(shares.take(0) =~= Seq::<int>::empty());
    }
    let mut msgs: Vec<Msg> = Vec::new();
    let mut paid: u128 = 0;
    let mut i: usize = 0;
    while i < state.config.distribution_contracts.len()
        invariant
            i <= contracts.len(),
            contracts == state.config.distribution_contracts@,
            shares == contract_shares(reward, contracts),
            want == reward_msgs(state, reward),
            forall|j: int| 0 <= j < contracts.len() ==> (#[trigger] contracts[j]).ratio.atomics <= DECIMAL_FRACTIONAL,
            forall|j: int| 0 <= j < contracts.len() ==> 0 <= #[trigger] shares[j] <= reward,
            0 <= seq_sum(shares) <= reward,
            paid == seq_sum(shares.take(i as int)),
            msgs@.len() == i,
            forall|j: int| 0 <= j < i ==> (#[trigger] msgs@[j])@ == want[j],
        decreases contracts.len() - i,
    {
        let c = &state.config.distribution_contracts[i];
        proof {
            assert(shares.take(i + 1) =~= shares.take(i as int).push(shares[i as int]));
            lemma_sum_push(shares.take(i as int), shares[i as int]);
            lemma_sum_prefix(shares, i + 1);
        }
        let amount = share_of(reward, c.ratio);
        paid = paid + amount;
        msgs.push(
            Msg::DistributeRewards { contract: c.contract.clone(), funds: coin(amount, &state.config.epoch_reward.denom) },
        );
        i = i + 1;
    }
    proof {
        assert(shares.take(shares.len() as int) =~= shares);
    }
    msgs.push(
        Msg::DistributeRewards {
            contract: state.config.validator_group.clone(),
            funds: coin(reward - paid, &state.config.epoch_reward.denom),
        },
    );
    assert(views(msgs@) =~= want);
    msgs
}

/// The messages that slash the portion `portion` of `addr`: one to the
/// membership contract and one to the contract of the validators.
pub open spec fn slash_msgs(state: &Valset, addr: Seq<char>, portion: Decimal) -> Seq<MsgView> {
    seq![
        MsgView::Slash { contract: state.config.membership@, addr, portion },
        MsgView::Slash { contract: state.config.validator_group@, addr, portion },
    ]
}

fn slash_messages(state: &Valset, addr: &String, portion: Decimal) -> (r: Vec<Msg>)
    ensures
        views(r@) == slash_msgs(state, addr@, portion),
{
    let mut msgs: Vec<Msg> = Vec::new();
    msgs.push(Msg::Slash { contract: state.config.membership.clone(), addr: addr.clone(), portion });
    msgs.push(Msg::Slash { contract: state.config.validator_group.clone(), addr: addr.clone(), portion });
    assert(views(msgs@) =~= slash_msgs(state, addr@, portion));
    msgs
}

/// What a slash reports.
pub open spec fn slash_response(state: &Valset, addr: Seq<char>, portion: Decimal, sender: Seq<char>) -> ResponseView {
    ResponseView {
        attributes: seq![
            attr_view("action"@, "slash"@),
            attr_view("addr"@, addr),
            attr_view("sender"@, sender),
        ],
        messages: slash_msgs(state, addr, portion),
        events: Seq::empty(),
    }
}

/// What `execute_slash` returns.
pub open spec fn slash_ensures(
    state: &Valset,
    info: &MessageInfo,
    addr: String,
    portion: Decimal,
    r: Result<Response, ContractError>,
) -> bool {
    if state.admin@ != Some(info.sender@) {
        r == Err::<Response, ContractError>(ContractError::NotAdmin)
    } else if portion.atomics > DECIMAL_FRACTIONAL {
        r == Err::<Response, ContractError>(ContractError::InvalidPortion)
    } else {
        r.is_ok() && r.unwrap()@ == slash_response(state, addr@, portion, info.sender@)
    }
}

/// Has the portion `portion` of `addr` slashed, in the membership contract
/// and in the contract of the validators. Only the admin may do so.
pub fn execute_slash(state: &Valset, info: &MessageInfo, addr: String, portion: Decimal) -> (r: Result<
    Response,
    ContractError,
>)
    ensures
        slash_ensures(state, info, addr, portion, r),
{
    if !state.admin.is_admin(&info.sender) {
        return Err(ContractError::NotAdmin);
    }
    match validate_portion(portion) {
        Ok(_) => {},
        Err(e) => {
            return Err(e);
        },
    }
    let mut res = Response::new();
    res.add_attribute_str("action", "slash");
    res.add_attribute("addr", addr.clone());
    res.add_attribute("sender", info.sender.clone());
    res.add_messages(slash_messages(state, &addr, portion));
    proof {
        let want = slash_response(state, addr@, portion, info.sender@);
        assert(res@.attributes =~= want.attributes);
        assert(res@.messages =~= want.messages);
    }
    Ok(res)
}

/// What `double_sign` returns and how it leaves the state.
pub open spec fn double_sign_ensures(
    pre: &Valset,
    env: &Env,
    operator: String,
    post: &Valset,
    r: Result<Response, ContractError>,
) -> bool {
    &&& post.wf()
    &&& post.admin == pre.admin
    &&& post.config == pre.config
    &&& post.epoch == pre.epoch
    &&& post.operators == pre.operators
    &&& post.validators == pre.validators
    &&& post.pending == pre.pending
    &&& if !pre.operators@.contains_key(operator@) {
        r == Err::<Response, ContractError>(ContractError::OperatorNotFound) && *post == *pre
    } else {
        &&& r.is_ok()
        &&& post.jail@ == pre.jail@.insert(
            operator@,
            JailingPeriod { start: env.block.time, end: JailingEnd::Forever },
        )
        &&& r.unwrap()@ == (ResponseView {
            attributes: seq![attr_view("action"@, "double_sign"@), attr_view("operator"@, operator@)],
            messages: slash_msgs(pre, operator@, pre.config.double_sign_slash_ratio),
            events: Seq::empty(),
        })
    }
}

/// Punishes the operator `operator` for signing twice: it is jailed forever,
/// and the portion that the settings name is slashed from what it holds.
pub fn double_sign(state: &mut Valset, env: &Env, operator: String) -> (r: Result<Response, ContractError>)
    requires
        old(state).wf(),
    ensures
        double_sign_ensures(old(state), env, operator, final(state), r),
{
    if !state.operators.contains(&operator) {
        return Err(ContractError::OperatorNotFound);
    }
    let period = JailingPeriod::from_duration(JailingDuration::Forever, &env.block);
    state.jail.insert(operator.clone(), period);
    let mut res = Response::new();
    res.add_attribute_str("action", "double_sign");
    res.add_attribute("operator", operator.clone());
    res.add_messages(slash_messages(state, &operator, state.config.double_sign_slash_ratio));
    proof {
        assert(res@.attributes =~= seq![
            attr_view("action"@, "double_sign"@),
            attr_view("operator"@, operator@),
        ]);
        assert(res@.messages =~= slash_msgs(old(state), operator@, old(state).config.double_sign_slash_ratio));
    }
    Ok(res)
}

/// The epoch that the engine is in and when the next begins.
pub fn query_epoch(state: &Valset, env: &Env) -> (r: EpochResponse)
    requires
        state.wf(),
        (epoch_at(env.block.time, state.epoch.epoch_length) + 1) * state.epoch.epoch_length <= u64::MAX,
    ensures
        r.epoch_length == state.epoch.epoch_length,
        r.current_epoch == epoch_at(env.block.time, state.epoch.epoch_length),
        r.last_update_time == state.epoch.last_update_time,
        r.last_update_height == state.epoch.last_update_height,
        r.next_update_time == (epoch_at(env.block.time, state.epoch.epoch_length) + 1) * state.epoch.epoch_length,
{
    let current = epoch_of(env.block.time, state.epoch.epoch_length);
    assert((current + 1) * state.epoch.epoch_length <= u64::MAX);
    EpochResponse {
        epoch_length: state.epoch.epoch_length,
        current_epoch: current,
        last_update_time: state.epoch.last_update_time,
        last_update_height: state.epoch.last_update_height,
        next_update_time: (current + 1) * state.epoch.epoch_length,
    }
}

/// The active set, from the highest rank down.
pub fn list_active_validators(state: &Valset) -> (r: Vec<ValidatorInfo>)
    ensures
        views(r@) == views(state.validators@),
{
    let mut out: Vec<ValidatorInfo> = Vec::new();
    let mut i: usize = 0;
    while i < state.validators.len()
        invariant
            i <= state.validators@.len(),
            out@.len() == i,
            forall|j: int| 0 <= j < i ==> out@[j]@ == state.validators@[j]@,
        decreases state.validators@.len() - i,
    {
        out.push(state.validators[i].duplicate());
        i = i + 1;
    }
    assert(views(out@) =~= views(state.validators@));
    out
}

/// The operator at `j` in `ops` is named earlier in `ops` too.
pub open spec fn named_before(ops: Seq<OperatorInitInfo>, j: int) -> bool {
    exists|i: int| 0 <= i < j && (#[trigger] ops[i]).operator@ == ops[j].operator@
}

/// The key of the operator at `j` in `ops` is held by an earlier operator of `ops` too.
pub open spec fn key_before(ops: Seq<OperatorInitInfo>, j: int) -> bool {
    exists|i: int| 0 <= i < j && ed25519_of((#[trigger] ops[i]).validator_pubkey) == ed25519_of(ops[j].validator_pubkey)
}

/// `j` is the first position in `ops` whose operator or key occurs earlier.
pub open spec fn first_clash(ops: Seq<OperatorInitInfo>, j: int) -> bool {
    &&& 0 <= j < ops.len()
    &&& named_before(ops, j) || key_before(ops, j)
    &&& forall|k: int| 0 <= k < j ==> !named_before(ops, k) && !key_before(ops, k)
}

/// The operators that `state` has on record are those of `ops`, each with its key and metadata, none active.
pub open spec fn holds_operators(state: &Valset, ops: Seq<OperatorInitInfo>) -> bool {
    &&& forall|a: Seq<char>| #[trigger]
        state.operators@.contains_key(a) <==> exists|i: int| 0 <= i < ops.len() && (#[trigger] ops[i]).operator@ == a
    &&& forall|i: int|
        0 <= i < ops.len() ==> {
            let info = state.operators@[(#[trigger] ops[i]).operator@];
            &&& Some(info.pubkey.bytes@) == ed25519_of(ops[i].validator_pubkey)
            &&& info.metadata == ops[i].metadata
            &&& !info.active_validator
        }
}

/// What `instantiate` returns.
pub open spec fn instantiate_ensures(
    env: &Env,
    msg: InstantiateMsg,
    validator_group: String,
    r: Result<(Valset, Response), ContractError>,
) -> bool {
    let ops = msg.initial_keys@;
    if instantiate_fault(msg) is Some {
        r.is_err() && reports_fault(r.unwrap_err(), instantiate_fault(msg)->0)
    } else if msg.distribution_contracts.sum_ratios() > DECIMAL_FRACTIONAL {
        r == Err::<(Valset, Response), ContractError>(ContractError::InvalidRewardsRatio)
    } else if msg.fee_percentage.atomics > DECIMAL_FRACTIONAL {
        r == Err::<(Valset, Response), ContractError>(ContractError::InvalidPortion)
    } else if exists|j: int| first_clash(ops, j) {
        let j = choose|j: int| first_clash(ops, j);
        if named_before(ops, j) {
            r == Err::<(Valset, Response), ContractError>(ContractError::AlreadyRegistered)
        } else {
            r == Err::<(Valset, Response), ContractError>(ContractError::DuplicatePubkey)
        }
    } else {
        &&& r.is_ok()
        &&& r.unwrap().1@ == empty_response()
        &&& r.unwrap().0.wf()
        &&& holds_operators(&r.unwrap().0, ops)
        &&& r.unwrap().0.admin@ == opt_text(msg.admin)
        &&& r.unwrap().0.jail@ == Map::<Seq<char>, JailingPeriod>::empty()
        &&& r.unwrap().0.validators@.len() == 0
        &&& r.unwrap().0.pending@.len() == 0
        &&& r.unwrap().0.epoch == (EpochInfo {
            epoch_length: msg.epoch_length,
            current_epoch: 0,
            last_update_time: 0,
            last_update_height: 0,
        })
        &&& r.unwrap().0.config.membership == msg.membership
        &&& r.unwrap().0.config.min_points == msg.min_points
        &&& r.unwrap().0.config.max_validators == msg.max_validators
        &&& r.unwrap().0.config.scaling == msg.scaling
        &&& r.unwrap().0.config.epoch_reward == msg.epoch_reward
        &&& r.unwrap().0.config.fee_percentage == msg.fee_percentage
        &&& r.unwrap().0.config.auto_unjail == msg.auto_unjail
        &&& r.unwrap().0.config.double_sign_slash_ratio == msg.double_sign_slash_ratio
        &&& r.unwrap().0.config.validator_group == validator_group
        &&& r.unwrap().0.config.verify_validators == msg.verify_validators
        &&& r.unwrap().0.config.offline_jail_duration == msg.offline_jail_duration
        &&& r.unwrap().0.config.distribution_contracts@.len() == msg.distribution_contracts.inner@.len()
        &&& forall|i: int|
            0 <= i < msg.distribution_contracts.inner@.len() ==> (
            #[trigger] r.unwrap().0.config.distribution_contracts@[i]).contract@
                == msg.distribution_contracts.inner@[i].contract@
                && r.unwrap().0.config.distribution_contracts@[i].ratio == msg.distribution_contracts.inner@[i].ratio
    }
}

/// Sets up the engine that `msg` describes, with the operators that it
/// names and with `validator_group` as the contract of the validators. The
/// first end of a block computes the set. Fails where the message is out of
/// order, where the ratios of the distribution contracts sum to more than
/// one or the fee percentage is more than one, and where an operator or a
/// key is named twice.
pub fn instantiate(env: &Env, msg: InstantiateMsg, validator_group: String) -> (r: Result<
    (Valset, Response),
    ContractError,
>)
    ensures
        instantiate_ensures(env, msg, validator_group, r),
{
    match msg.validate() {
        Ok(_) => {},
        Err(e) => {
            return Err(e);
        },
    }
    let ghost ops = msg.initial_keys@;
    let ghost ratio_sum = msg.distribution_contracts.sum_ratios();
    let ghost unvalidated = msg.distribution_contracts.inner@;
    let distribution_contracts = match msg.distribution_contracts.validate() {
        Ok(c) => c,
        Err(e) => {
            return Err(e);
        },
    };
    if !msg.fee_percentage.is_portion() {
        return Err(ContractError::InvalidPortion);
    }
    proof {
        assert(contract_ratios(distribution_contracts@) =~= crate::valset::msg::ratios(unvalidated));
    }
    let mut state = Valset {
        admin: Admin::new(msg.admin),
        config: Config {
            membership: msg.membership,
            min_points: msg.min_points,
            max_validators: msg.max_validators,
            scaling: msg.scaling,
            epoch_reward: msg.epoch_reward,
            fee_percentage: msg.fee_percentage,
            auto_unjail: msg.auto_unjail,
            double_sign_slash_ratio: msg.double_sign_slash_ratio,
            distribution_contracts,
            validator_group,
            verify_validators: msg.verify_validators,
            offline_jail_duration: msg.offline_jail_duration,
        },
        epoch: EpochInfo {
            epoch_length: msg.epoch_length,
            current_epoch: 0,
            last_update_time: 0,
            last_update_height: 0,
        },
        operators: AddrMap::new(),
        jail: AddrMap::new(),
        validators: Vec::new(),
        pending: Vec::new(),
    };
    let ghost start = state;
    let mut i: usize = 0;
    while i < msg.initial_keys.len()
        invariant
            i <= msg.initial_keys@.len(),
            ops == msg.initial_keys@,
            instantiate_fault(msg) is None,
            ratio_sum == msg.distribution_contracts.sum_ratios(),
            ratio_sum <= DECIMAL_FRACTIONAL,
            msg.fee_percentage.atomics <= DECIMAL_FRACTIONAL,
            crate::valset::msg::first_operator_fault(ops) is None,
            state.wf(),
            state.admin == start.admin,
            state.config == start.config,
            state.epoch == start.epoch,
            state.jail == start.jail,
            state.validators == start.validators,
            state.pending == start.pending,
            forall|k: int| 0 <= k < i ==> !named_before(ops, k) && !key_before(ops, k),
            registered_so_far(&state, ops, i as int),
        decreases msg.initial_keys@.len() - i,
    {
        let op = &msg.initial_keys[i];
        let ghost before = state;
        proof {
            lemma_no_operator_fault(ops, i as int);
        }
        let key = match Ed25519Pubkey::try_from(&op.validator_pubkey) {
            Some(k) => k,
            None => {
                return Err(ContractError::InvalidPubkey);
            },
        };
        proof {
            lemma_clash_is_conflict(&state, ops, i as int);
        }
        match bind_key(&mut state, &op.operator, key, op.metadata.clone_metadata()) {
            Ok(_) => {
                proof {
                    lemma_registered_one_more(&before, &state, ops, i as int);
                }
            },
            Err(e) => {
                proof {
                    assert(first_clash(ops, i as int));
                    lemma_first_clash(ops, i as int);
                }
                return Err(e);
            },
        }
        i = i + 1;
    }
    proof {
        assert(!exists|j: int| first_clash(ops, j));
        assert(holds_operators(&state, ops));
        assert(state.jail@ =~= Map::<Seq<char>, JailingPeriod>::empty());
    }
    Ok((state, Response::new()))
}

/// The operators on record in `state` are the first `i` of `ops`, each with its key and metadata, none active.
pub open spec fn registered_so_far(state: &Valset, ops: Seq<OperatorInitInfo>, i: int) -> bool {
    &&& forall|a: Seq<char>| #[trigger]
        state.operators@.contains_key(a) <==> exists|k: int| 0 <= k < i && (#[trigger] ops[k]).operator@ == a
    &&& forall|k: int|
        0 <= k < i ==> {
            let info = state.operators@[(#[trigger] ops[k]).operator@];
            &&& Some(info.pubkey.bytes@) == ed25519_of(ops[k].validator_pubkey)
            &&& info.metadata == ops[k].metadata
            &&& !info.active_validator
        }
}

/// With the first `i` operators on record, the operator at `i` is on record
/// where it is named before, and its key is taken where an earlier operator holds it.
proof fn lemma_clash_is_conflict(state: &Valset, ops: Seq<OperatorInitInfo>, i: int)
    requires
        0 <= i < ops.len(),
        registered_so_far(state, ops, i),
        ed25519_of(ops[i].validator_pubkey) is Some,
    ensures
        state.operators@.contains_key(ops[i].operator@) == named_before(ops, i),
        key_taken(state, ed25519_of(ops[i].validator_pubkey)->0) == key_before(ops, i),
{
    let bytes = ed25519_of(ops[i].validator_pubkey)->0;
    if named_before(ops, i) {
        let x = choose|x: int| 0 <= x < i && (#[trigger] ops[x]).operator@ == ops[i].operator@;
        assert(state.operators@.contains_key(ops[i].operator@));
    }
    if key_taken(state, bytes) {
        let a = choose|a: Seq<char>| #[trigger]
            state.operators@.contains_key(a) && state.operators@[a].pubkey.bytes@ == bytes;
        let k = choose|k: int| 0 <= k < i && (#[trigger] ops[k]).operator@ == a;
        assert(ed25519_of(ops[k].validator_pubkey) == ed25519_of(ops[i].validator_pubkey));
    }
    if key_before(ops, i) {
        let x = choose|x: int|
            0 <= x < i && ed25519_of((#[trigger] ops[x]).validator_pubkey) == ed25519_of(ops[i].validator_pubkey);
        assert(state.operators@.contains_key(ops[x].operator@));
    }
}

/// Binding the operator at `i` puts one more of `ops` on record.
proof fn lemma_registered_one_more(pre: &Valset, post: &Valset, ops: Seq<OperatorInitInfo>, i: int)
    requires
        0 <= i < ops.len(),
        registered_so_far(pre, ops, i),
        !pre.operators@.contains_key(ops[i].operator@),
        ed25519_of(ops[i].validator_pubkey) is Some,
        bound(pre, post, ops[i].operator@, ed25519_of(ops[i].validator_pubkey)->0, ops[i].metadata),
    ensures
        registered_so_far(post, ops, i + 1),
{
    let who = ops[i].operator@;
    assert forall|a: Seq<char>| #[trigger]
        post.operators@.contains_key(a) <==> exists|k: int| 0 <= k < i + 1 && (#[trigger] ops[k]).operator@ == a by {
        if a == who {
            assert(ops[i].operator@ == a);
        } else {
            if pre.operators@.contains_key(a) {
                let k = choose|k: int| 0 <= k < i && (#[trigger] ops[k]).operator@ == a;
                assert(0 <= k < i + 1 && ops[k].operator@ == a);
            }
            if exists|k: int| 0 <= k < i + 1 && (#[trigger] ops[k]).operator@ == a {
                let k = choose|k: int| 0 <= k < i + 1 && (#[trigger] ops[k]).operator@ == a;
                assert(0 <= k < i && ops[k].operator@ == a);
            }
        }
    }
    assert forall|k: int| 0 <= k < i + 1 implies {
        let inf = post.operators@[(#[trigger] ops[k]).operator@];
        &&& Some(inf.pubkey.bytes@) == ed25519_of(ops[k].validator_pubkey)
        &&& inf.metadata == ops[k].metadata
        &&& !inf.active_validator
    } by {
        if k < i {
            assert(pre.operators@.contains_key(ops[k].operator@));
            assert(ops[k].operator@ != who);
        }
    }
}

/// Where no operator of `ops` has a fault, the operator at `i` has none.
proof fn lemma_no_operator_fault(ops: Seq<OperatorInitInfo>, i: int)
    requires
        crate::valset::msg::first_operator_fault(ops) is None,
        0 <= i < ops.len(),
    ensures
        operator_fault(ops[i]) is None,
    decreases i,
{
    if i > 0 {
        assert(ops.drop_first()[i - 1] == ops[i]);
        lemma_no_operator_fault(ops.drop_first(), i - 1);
    }
}

/// The first position with a clash is determined.
proof fn lemma_first_clash(ops: Seq<OperatorInitInfo>, j: int)
    requires
        first_clash(ops, j),
    ensures
        (exists|k: int| first_clash(ops, k)),
        (choose|k: int| first_clash(ops, k)) == j,
{
    let k = choose|k: int| first_clash(ops, k);
    if k < j {
        assert(!named_before(ops, k) && !key_before(ops, k));
    }
    if j < k {
        assert(!named_before(ops, j) && !key_before(ops, j));
    }
}

/// The jailings after every operator of `pending` that is not among
/// `signers` was jailed from `start` on for `duration`.
pub open spec fn absent_jailed(
    jail: Map<Seq<char>, JailingPeriod>,
    pending: Seq<Seq<char>>,
    signers: Seq<Seq<char>>,
    duration: crate::time::Duration,
    start: Timestamp,
) -> Map<Seq<char>, JailingPeriod> {
    Map::new(
        |a: Seq<char>| jail.contains_key(a) || (pending.contains(a) && !signers.contains(a)),
        |a: Seq<char>|
            if pending.contains(a) && !signers.contains(a) {
                jailing_from(JailingDuration::Duration(duration), start)
            } else {
                jail[a]
            },
    )
}

/// A sequence with one more item holds what it held, and the item.
proof fn lemma_push_contains(s: Seq<Seq<char>>, x: Seq<char>, a: Seq<char>)
    ensures
        s.push(x).contains(a) == (s.contains(a) || a == x),
{
    let t = s.push(x);
    if s.contains(a) {
        let i = choose|i: int| 0 <= i < s.len() && s[i] == a;
        assert(t[i] == a);
    }
    if a == x {
        assert(t[s.len() as int] == a);
    }
    if t.contains(a) && a != x {
        let i = choose|i: int| 0 <= i < t.len() && t[i] == a;
        assert(s[i] == a);
    }
}

/// What `verify_signers` leaves of the state.
pub open spec fn verify_signers_ensures(pre: &Valset, env: &Env, signers: &Vec<String>, post: &Valset) -> bool {
    &&& post.wf()
    &&& post.admin == pre.admin
    &&& post.config == pre.config
    &&& post.epoch == pre.epoch
    &&& post.operators == pre.operators
    &&& post.validators == pre.validators
    &&& post.pending@.len() == 0
    &&& post.jail@ == absent_jailed(
        pre.jail@,
        views(pre.pending@),
        views(signers@),
        pre.config.offline_jail_duration,
        env.block.time,
    )
}

/// Holds the operators that joined the set at the last computation to
/// their first block: who of them is not among `signers` is jailed from now
/// on for the duration that the settings name. Nobody is held to it twice.
pub fn verify_signers(state: &mut Valset, env: &Env, signers: &Vec<String>)
    requires
        old(state).wf(),
        old(state).config.offline_jail_duration.fits_after(env.block.time),
    ensures
        verify_signers_ensures(old(state), env, signers, final(state)),
{
    let ghost pending = views(state.pending@);
    let ghost jail0 = state.jail@;
    let duration = state.config.offline_jail_duration;
    let period = JailingPeriod::from_duration(JailingDuration::Duration(duration), &env.block);
    let n = state.pending.len();
    let mut i: usize = 0;
    proof {
        assert(pending.take(0) =~= Seq::<Seq<char>>::empty());
        assert(state.jail@ =~= absent_jailed(jail0, pending.take(0), views(signers@), duration, env.block.time));
    }
    while i < n
        invariant
            i <= n,
            n == state.pending@.len(),
            pending == views(state.pending@),
            state.wf(),
            state.admin == old(state).admin,
            state.config == old(state).config,
            state.epoch == old(state).epoch,
            state.operators == old(state).operators,
            state.validators == old(state).validators,
            state.pending == old(state).pending,
            period == jailing_from(JailingDuration::Duration(duration), env.block.time),
            state.jail@ == absent_jailed(jail0, pending.take(i as int), views(signers@), duration, env.block.time),
        decreases n - i,
    {
        let who = state.pending[i].clone();
        let ghost before = state.jail@;
        proof {
            assert(pending[i as int] == who@);
            assert(pending.take(i + 1) =~= pending.take(i as int).push(who@));
        }
        let mut signed = false;
        let mut k: usize = 0;
        while k < signers.len()
            invariant
                k <= signers@.len(),
                signed == (exists|x: int| 0 <= x < k && views(signers@)[x] == who@),
            decreases signers@.len() - k,
        {
            if signers[k] == who {
                assert(views(signers@)[k as int] == who@);
                signed = true;
            }
            k = k + 1;
        }
        assert(signed == views(signers@).contains(who@));
        if !signed {
            state.jail.insert(who, period);
        }
        proof {
            let want = absent_jailed(jail0, pending.take(i + 1), views(signers@), duration, env.block.time);
            let was = absent_jailed(jail0, pending.take(i as int), views(signers@), duration, env.block.time);
            assert(before == was);
            let head = pending.take(i as int);
            let more = pending.take(i + 1);
            assert(more =~= head.push(who@));
            assert forall|a: Seq<char>| #[trigger] more.contains(a) == (head.contains(a) || a == who@) by {
                lemma_push_contains(head, who@, a);
            }
            assert forall|a: Seq<char>| state.jail@.contains_key(a) == want.contains_key(a) by {
                assert(pending.take(i + 1).contains(a) == (pending.take(i as int).contains(a) || a == who@));
                assert(was.contains_key(a) == (jail0.contains_key(a) || (pending.take(i as int).contains(a)
                    && !views(signers@).contains(a))));
            }
            assert forall|a: Seq<char>| state.jail@.contains_key(a) implies state.jail@[a] == want[a] by {
                assert(pending.take(i + 1).contains(a) == (pending.take(i as int).contains(a) || a == who@));
                if a != who@ || signed {
                    assert(state.jail@[a] == was[a]);
                }
            }
            assert(state.jail@ =~= want);
        }
        i = i + 1;
    }
    proof {
        assert(pending.take(n as int) =~= pending);
    }
    state.pending = Vec::new();
}

/// Whether the power of every member that can be a validator fits in 64 bits.
pub fn powers_fit_now(state: &Valset, source: &Members, block: &BlockInfo) -> (r: bool)
    requires
        state.wf(),
        source.wf(),
    ensures
        r == powers_fit(state, source.current.entries@, block.time.nanos),
{
    let scaling: u64 = match state.config.scaling {
        Some(s) => s as u64,
        None => 1,
    };
    let mut i: usize = 0;
    while i < source.current.entries.len()
        invariant
            state.wf(),
            i <= source.current.entries@.len(),
            scaling == scale_of(state.config.scaling),
            forall|j: int|
                0 <= j < i && eligible(state, #[trigger] source.current.entries@[j], block.time.nanos)
                    ==> source.current.entries@[j].value * scaling <= u64::MAX,
        decreases source.current.entries@.len() - i,
    {
        let e = &source.current.entries[i];
        if e.value >= state.config.min_points && state.operators.contains(&e.key) && !is_jailed(state, &e.key, block) {
            if e.value.checked_mul(scaling).is_none() {
                assert(eligible(state, source.current.entries@[i as int], block.time.nanos));
                return false;
            }
        }
        i = i + 1;
    }
    true
}

/// The settings that an update of the settings names; `None` leaves a setting as it is.
#[derive(Clone, Debug, PartialEq, Eq)]
pub struct ConfigUpdate {
    pub min_points: Option<u64>,
    pub max_validators: Option<u32>,
    pub scaling: Option<u32>,
    pub epoch_reward: Option<Coin>,
    pub fee_percentage: Option<Decimal>,
    pub auto_unjail: Option<bool>,
    pub double_sign_slash_ratio: Option<Decimal>,
    pub distribution_contracts: Option<Vec<DistributionContract>>,
    pub verify_validators: Option<bool>,
    pub offline_jail_duration: Option<Duration>,
}

/// The first fault of an update of the settings, in the order least points,
/// most validators, scaling, denom of the reward, fee percentage, ratios of
/// the distribution contracts.
pub open spec fn update_fault(u: ConfigUpdate) -> Option<ContractError> {
    if u.min_points == Some(0u64) {
        Some(ContractError::InvalidMinPoints)
    } else if u.max_validators == Some(0u32) {
        Some(ContractError::InvalidMaxValidators)
    } else if u.scaling == Some(0u32) {
        Some(ContractError::InvalidScaling)
    } else if u.epoch_reward is Some && (byte_len(u.epoch_reward->0.denom@) < 2 || byte_len(
        u.epoch_reward->0.denom@,
    ) > 127) {
        Some(ContractError::InvalidRewardDenom)
    } else if u.fee_percentage is Some && u.fee_percentage->0.atomics > DECIMAL_FRACTIONAL {
        Some(ContractError::InvalidPortion)
    } else if u.distribution_contracts is Some && seq_sum(contract_ratios(u.distribution_contracts->0@))
        > DECIMAL_FRACTIONAL {
        Some(ContractError::InvalidRewardsRatio)
    } else {
        None
    }
}

/// The value that an update leaves: the new one where one is named, else the old one.
pub open spec fn updated<T>(new: Option<T>, old: T) -> T {
    match new {
        Some(v) => v,
        None => old,
    }
}

/// What `update_config` returns and how it leaves the state.
pub open spec fn update_config_ensures(
    pre: &Valset,
    info: &MessageInfo,
    update: ConfigUpdate,
    post: &Valset,
    r: Result<Response, ContractError>,
) -> bool {
    &&& post.wf()
    &&& post.admin == pre.admin
    &&& post.epoch == pre.epoch
    &&& post.operators == pre.operators
    &&& post.jail == pre.jail
    &&& post.validators == pre.validators
    &&& post.pending == pre.pending
    &&& r.is_err() ==> *post == *pre
    &&& if pre.admin@ != Some(info.sender@) {
        r == Err::<Response, ContractError>(ContractError::NotAdmin)
    } else if update_fault(update) is Some {
        r == Err::<Response, ContractError>(update_fault(update)->0)
    } else {
        &&& r.is_ok()
        &&& r.unwrap()@ == (ResponseView {
            attributes: seq![attr_view("action"@, "update_config"@), attr_view("operator"@, info.sender@)],
            ..empty_response()
        })
        &&& post.config.membership == pre.config.membership
        &&& post.config.validator_group == pre.config.validator_group
        &&& post.config.min_points == updated(update.min_points, pre.config.min_points)
        &&& post.config.max_validators == updated(update.max_validators, pre.config.max_validators)
        &&& post.config.scaling == (if update.scaling is Some {
            update.scaling
        } else {
            pre.config.scaling
        })
        &&& post.config.epoch_reward == updated(update.epoch_reward, pre.config.epoch_reward)
        &&& post.config.fee_percentage == updated(update.fee_percentage, pre.config.fee_percentage)
        &&& post.config.auto_unjail == updated(update.auto_unjail, pre.config.auto_unjail)
        &&& post.config.double_sign_slash_ratio == updated(
            update.double_sign_slash_ratio,
            pre.config.double_sign_slash_ratio,
        )
        &&& post.config.distribution_contracts == updated(
            update.distribution_contracts,
            pre.config.distribution_contracts,
        )
        &&& post.config.verify_validators == updated(update.verify_validators, pre.config.verify_validators)
        &&& post.config.offline_jail_duration == updated(
            update.offline_jail_duration,
            pre.config.offline_jail_duration,
        )
    }
}

/// Whether the ratios of `contracts` sum to at most one.
fn ratios_within_one(contracts: &Vec<DistributionContract>) -> (r: bool)
    ensures
        r == (seq_sum(contract_ratios(contracts@)) <= DECIMAL_FRACTIONAL),
{
    let ghost rs = contract_ratios(contracts@);
    let mut sum: u128 = 0;
    let mut i: usize = 0;
    proof {
        assert(rs.take(0) =~= Seq::<int>::empty());
    }
    while i < contracts.len()
        invariant
            i <= contracts@.len(),
            rs == contract_ratios(contracts@),
            sum == seq_sum(rs.take(i as int)),
            sum <= DECIMAL_FRACTIONAL,
        decreases contracts@.len() - i,
    {
        proof {
            assert(rs.take(i + 1) =~= rs.take(i as int).push(rs[i as int]));
            lemma_sum_push(rs.take(i as int), rs[i as int]);
            lemma_sum_prefix(rs, i + 1);
        }
        if contracts[i].ratio.atomics > DECIMAL_FRACTIONAL - sum {
            return false;
        }
        sum = sum + contracts[i].ratio.atomics;
        i = i + 1;
    }
    proof {
        assert(rs.take(rs.len() as int) =~= rs);
    }
    true
}

/// The first fault of the update, as an error.
fn check_update(update: &ConfigUpdate) -> (r: Result<(), ContractError>)
    ensures
        match update_fault(*update) {
            Some(e) => r == Err::<(), ContractError>(e),
            None => r.is_ok(),
        },
{
    if update.min_points == Some(0) {
        return Err(ContractError::InvalidMinPoints);
    }
    if update.max_validators == Some(0) {
        return Err(ContractError::InvalidMaxValidators);
    }
    if update.scaling == Some(0) {
        return Err(ContractError::InvalidScaling);
    }
    match &update.epoch_reward {
        Some(c) => {
            let n = c.denom.as_str().as_bytes().len();
            if n < 2 || n > 127 {
                return Err(ContractError::InvalidRewardDenom);
            }
        },
        None => {},
    }
    match update.fee_percentage {
        Some(f) => {
            if !f.is_portion() {
                return Err(ContractError::InvalidPortion);
            }
        },
        None => {},
    }
    match &update.distribution_contracts {
        Some(c) => {
            if !ratios_within_one(c) {
                return Err(ContractError::InvalidRewardsRatio);
            }
        },
        None => {},
    }
    Ok(())
}

/// The new value where one is named, else the old one.
fn pick<T>(new: Option<T>, old: T) -> (r: T)
    ensures
        r == updated(new, old),
{
    match new {
        Some(v) => v,
        None => old,
    }
}

/// Changes the settings that `update` names. Only the admin may do so, and
/// only to settings that are in their ranges.
pub fn update_config(state: &mut Valset, info: &MessageInfo, update: ConfigUpdate) -> (r: Result<
    Response,
    ContractError,
>)
    requires
        old(state).wf(),
    ensures
        update_config_ensures(old(state), info, update, final(state), r),
{
    if !state.admin.is_admin(&info.sender) {
        return Err(ContractError::NotAdmin);
    }
    match check_update(&update) {
        Ok(_) => {},
        Err(e) => {
            return Err(e);
        },
    }
    state.config.min_points = pick(update.min_points, state.config.min_points);
    state.config.max_validators = pick(update.max_validators, state.config.max_validators);
    if update.scaling.is_some() {
        state.config.scaling = update.scaling;
    }
    state.config.fee_percentage = pick(update.fee_percentage, state.config.fee_percentage);
    state.config.auto_unjail = pick(update.auto_unjail, state.config.auto_unjail);
    state.config.double_sign_slash_ratio = pick(
        update.double_sign_slash_ratio,
        state.config.double_sign_slash_ratio,
    );
    state.config.verify_validators = pick(update.verify_validators, state.config.verify_validators);
    state.config.offline_jail_duration = pick(update.offline_jail_duration, state.config.offline_jail_duration);
    set_reward(state, update.epoch_reward);
    set_contracts(state, update.distribution_contracts);
    Ok(operator_reply("update_config", &info.sender))
}

/// Sets the reward of an epoch, where one is named.
fn set_reward(state: &mut Valset, reward: Option<Coin>)
    ensures
        final(state).config.epoch_reward == updated(reward, old(state).config.epoch_reward),
        *final(state) == (Valset {
            config: Config { epoch_reward: final(state).config.epoch_reward, ..old(state).config },
            ..*old(state)
        }),
{
    match reward {
        Some(c) => {
            state.config.epoch_reward = c;
        },
        None => {},
    }
}

/// Sets the distribution contracts, where some are named.
fn set_contracts(state: &mut Valset, contracts: Option<Vec<DistributionContract>>)
    ensures
        final(state).config.distribution_contracts == updated(contracts, old(state).config.distribution_contracts),
        *final(state) == (Valset {
            config: Config {
                distribution_contracts: final(state).config.distribution_contracts,
                ..old(state).config
            },
            ..*old(state)
        }),
{
    match contracts {
        Some(c) => {
            state.config.distribution_contracts = c;
        },
        None => {},
    }
}

} // verus!
