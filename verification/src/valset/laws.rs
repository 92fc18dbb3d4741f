//! What holds of the validator engine whatever the members are.

use crate::keyed::{ascending, Entry};
use crate::members::{lemma_ranks_total, lemma_ranks_transitive, ranks_above, Members};
use crate::text::lemma_addr_before_irreflexive;
use crate::error::ContractError;
use crate::types::{Env, MessageInfo, Response};
use crate::valset::contract::{chosen, eligible, selects};
use crate::valset::entry::{execute_ensures, execute_requires};
use crate::valset::msg::ExecuteMsg;
use crate::valset::state::{ValidatorView, Valset};
use vstd::prelude::*;

verus! {

/// The member at `i` ranks above the member at `j`.
pub open spec fn above(entries: Seq<Entry<u64>>, i: int, j: int) -> bool {
    ranks_above(entries[i].value, entries[i].key@, entries[j].value, entries[j].key@)
}

/// Two members at two places rank one above the other, and only one way; no member ranks above itself.
proof fn lemma_one_above(entries: Seq<Entry<u64>>, i: int, j: int)
    requires
        ascending(entries),
        0 <= i < entries.len(),
        0 <= j < entries.len(),
    ensures
        i != j ==> above(entries, i, j) || above(entries, j, i),
        !(above(entries, i, j) && above(entries, j, i)),
        !above(entries, i, i),
{
    lemma_ranks_total(entries[i].value, entries[i].key@, entries[j].value, entries[j].key@);
    lemma_ranks_total(entries[i].value, entries[i].key@, entries[i].value, entries[i].key@);
    if i != j {
        lemma_addr_before_irreflexive(entries[i].key@);
        if i < j {
            assert(entries[i].key@ != entries[j].key@);
        } else {
            assert(entries[j].key@ != entries[i].key@);
        }
    }
}

/// The chosen members stand from the highest rank down.
proof fn lemma_chosen_descend(
    state: &Valset,
    entries: Seq<Entry<u64>>,
    now: u64,
    limit: int,
    out: Seq<ValidatorView>,
    idx: Seq<int>,
    i: int,
    j: int,
)
    requires
        chosen(state, entries, now, limit, out, idx),
        0 <= i < j < idx.len(),
    ensures
        above(entries, idx[i], idx[j]),
        0 <= idx[i] < entries.len(),
        0 <= idx[j] < entries.len(),
{
}

/// A member that can be a validator is chosen, or the set is full and its last member ranks above it.
proof fn lemma_chosen_or_below(
    state: &Valset,
    entries: Seq<Entry<u64>>,
    now: u64,
    limit: int,
    out: Seq<ValidatorView>,
    idx: Seq<int>,
    j: int,
) -> (m: int)
    requires
        chosen(state, entries, now, limit, out, idx),
        0 <= j < entries.len(),
        eligible(state, entries[j], now),
    ensures
        m >= 0 ==> m < idx.len() && idx[m] == j,
        m < 0 ==> idx.len() == limit && (limit > 0 ==> above(entries, idx[limit - 1], j)),
{
    if idx.contains(j) {
        choose|m: int| 0 <= m < idx.len() && idx[m] == j
    } else {
        -1
    }
}

/// Two choices that agree before the place `i` do not differ there with the first ranking above.
proof fn lemma_no_first_difference(
    state: &Valset,
    entries: Seq<Entry<u64>>,
    now: u64,
    limit: int,
    a: Seq<ValidatorView>,
    ia: Seq<int>,
    b: Seq<ValidatorView>,
    ib: Seq<int>,
    i: int,
)
    requires
        ascending(entries),
        chosen(state, entries, now, limit, a, ia),
        chosen(state, entries, now, limit, b, ib),
        0 <= i < ia.len(),
        i < ib.len(),
        forall|k: int| 0 <= k < i ==> ia[k] == ib[k],
    ensures
        !above(entries, ia[i], ib[i]),
{
    if above(entries, ia[i], ib[i]) {
        let j = ia[i];
        assert(0 <= ia[i] < entries.len() && eligible(state, entries[ia[i]], now));
        assert(0 <= ib[i] < entries.len());
        let m = lemma_chosen_or_below(state, entries, now, limit, b, ib, j);
        lemma_one_above(entries, ia[i], ib[i]);
        if m >= 0 {
            if m < i {
                assert(ia[m] == ib[m]);
                lemma_chosen_descend(state, entries, now, limit, a, ia, m, i);
                lemma_one_above(entries, j, j);
            } else if m > i {
                lemma_chosen_descend(state, entries, now, limit, b, ib, i, m);
            }
        } else {
            if i < limit - 1 {
                lemma_chosen_descend(state, entries, now, limit, b, ib, i, limit - 1);
                lemma_ranks_transitive(
                    entries[ib[i]].value,
                    entries[ib[i]].key@,
                    entries[ib[limit - 1]].value,
                    entries[ib[limit - 1]].key@,
                    entries[j].value,
                    entries[j].key@,
                );
            }
        }
    }
}

/// Two choices from the same members hold the same member at every place that both have.
proof fn lemma_same_place(
    state: &Valset,
    entries: Seq<Entry<u64>>,
    now: u64,
    limit: int,
    a: Seq<ValidatorView>,
    ia: Seq<int>,
    b: Seq<ValidatorView>,
    ib: Seq<int>,
    i: int,
)
    requires
        ascending(entries),
        chosen(state, entries, now, limit, a, ia),
        chosen(state, entries, now, limit, b, ib),
        0 <= i < ia.len(),
        i < ib.len(),
    ensures
        ia[i] == ib[i],
    decreases i,
{
    assert forall|k: int| 0 <= k < i implies ia[k] == ib[k] by {
        lemma_same_place(state, entries, now, limit, a, ia, b, ib, k);
    }
    assert(0 <= ia[i] < entries.len());
    assert(0 <= ib[i] < entries.len());
    lemma_one_above(entries, ia[i], ib[i]);
    lemma_no_first_difference(state, entries, now, limit, a, ia, b, ib, i);
    lemma_no_first_difference(state, entries, now, limit, b, ib, a, ia, i);
}

/// Of two choices from the same members the second is no longer than the first.
proof fn lemma_no_longer(
    state: &Valset,
    entries: Seq<Entry<u64>>,
    now: u64,
    limit: int,
    a: Seq<ValidatorView>,
    ia: Seq<int>,
    b: Seq<ValidatorView>,
    ib: Seq<int>,
)
    requires
        ascending(entries),
        chosen(state, entries, now, limit, a, ia),
        chosen(state, entries, now, limit, b, ib),
    ensures
        ib.len() <= ia.len(),
{
    if ia.len() < ib.len() {
        let n = ia.len() as int;
        let j = ib[n];
        assert(0 <= ib[n] < entries.len() && eligible(state, entries[ib[n]], now));
        let m = lemma_chosen_or_below(state, entries, now, limit, a, ia, j);
        if m >= 0 {
            lemma_same_place(state, entries, now, limit, a, ia, b, ib, m);
            lemma_chosen_descend(state, entries, now, limit, b, ib, m, n);
            lemma_one_above(entries, j, j);
        }
    }
}

/// The members give one active set and no other: the set that a computation
/// returns is the only one that the rules of the selection allow.
pub proof fn law_selection_is_unique(
    state: &Valset,
    source: &Members,
    now: u64,
    a: Seq<ValidatorView>,
    b: Seq<ValidatorView>,
)
    requires
        source.wf(),
        selects(state, source.current.entries@, now, a),
        selects(state, source.current.entries@, now, b),
    ensures
        a == b,
{
    let entries = source.current.entries@;
    let limit = state.config.max_validators as int;
    let ia = choose|idx: Seq<int>| #[trigger] chosen(state, entries, now, limit, a, idx);
    let ib = choose|idx: Seq<int>| #[trigger] chosen(state, entries, now, limit, b, idx);
    lemma_no_longer(state, entries, now, limit, a, ia, b, ib);
    lemma_no_longer(state, entries, now, limit, b, ib, a, ia);
    assert forall|i: int| 0 <= i < a.len() implies a[i] == b[i] by {
        lemma_same_place(state, entries, now, limit, a, ia, b, ib, i);
        assert(0 <= ia[i] < entries.len());
    }
    assert(a =~= b);
}

/// A message that fails leaves the state as it found it.
pub proof fn law_failure_changes_nothing(
    pre: &Valset,
    env: &Env,
    info: &MessageInfo,
    msg: ExecuteMsg,
    post: &Valset,
    r: Result<Response, ContractError>,
)
    requires
        execute_requires(pre, env, msg),
        execute_ensures(pre, env, info, msg, post, r),
        r.is_err(),
    ensures
        *post == *pre,
{
}

} // verus!
