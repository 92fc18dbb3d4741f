//! The plain values that the engines take and give: coins, times, messages.

use vstd::prelude::*;
use vstd::string::StringExecFns;

verus! {

/// The views of the items of `s`, in order.
pub open spec fn views<T: View>(s: Seq<T>) -> Seq<T::V> {
    Seq::new(s.len(), |i: int| s[i]@)
}

/// Pushing an item pushes its view.
pub proof fn lemma_views_push<T: View>(s: Seq<T>, x: T)
    ensures
        views(s.push(x)) == views(s).push(x@),
{
    assert(views(s.push(x)) =~= views(s).push(x@));
}

/// The views of a concatenation are the views of its parts, concatenated.
pub proof fn lemma_views_add<T: View>(s: Seq<T>, t: Seq<T>)
    ensures
        views(s + t) == views(s) + views(t),
{
    assert(views(s + t) =~= views(s) + views(t));
}

/// The decimal digit `d` as a character.
pub open spec fn digit_char(d: nat) -> char {
    if d == 0 {
        '0'
    } else if d == 1 {
        '1'
    } else if d == 2 {
        '2'
    } else if d == 3 {
        '3'
    } else if d == 4 {
        '4'
    } else if d == 5 {
        '5'
    } else if d == 6 {
        '6'
    } else if d == 7 {
        '7'
    } else if d == 8 {
        '8'
    } else {
        '9'
    }
}

/// `n` written in decimal digits, without sign or leading zeros.
pub open spec fn decimal_text(n: nat) -> Seq<char>
    decreases n,
{
    if n < 10 {
        seq![digit_char(n)]
    } else {
        decimal_text(n / 10).push(digit_char(n % 10))
    }
}

/// `u128::to_string` of std: the number in decimal digits.
#[verifier::external_body]
pub(crate) fn number_text(n: u128) -> (s: String)
    ensures
        s@ == decimal_text(n as nat),
{
    n.to_string()
}

/// An amount of one denomination.
#[derive(Clone, Debug, PartialEq, Eq)]
pub struct Coin {
    pub denom: String,
    pub amount: u128,
}

pub struct CoinView {
    pub denom: Seq<char>,
    pub amount: u128,
}

impl View for Coin {
    type V = CoinView;

    open spec fn view(&self) -> CoinView {
        CoinView { denom: self.denom@, amount: self.amount }
    }
}

/// The text of a coin: the amount in decimal digits, then the denom.
pub open spec fn coin_text(c: CoinView) -> Seq<char> {
    decimal_text(c.amount as nat) + c.denom
}

/// `amount` of `denom`.
pub fn coin(amount: u128, denom: &String) -> (c: Coin)
    ensures
        c@ == (CoinView { denom: denom@, amount }),
{
    Coin { denom: denom.clone(), amount }
}

impl Coin {
    /// The amount in decimal digits followed by the denom.
    pub fn to_text(&self) -> (s: String)
        ensures
            s@ == coin_text(self@),
    {
        number_text(self.amount).concat(self.denom.as_str())
    }
}

/// A point in time, in nanoseconds since the epoch.
#[derive(Clone, Copy, Debug, PartialEq, Eq)]
pub struct Timestamp {
    pub nanos: u64,
}

/// Nanoseconds in one second.
pub const NANOS_PER_SECOND: u64 = 1_000_000_000;

impl Timestamp {
    pub fn from_nanos(nanos: u64) -> (t: Timestamp)
        ensures
            t.nanos == nanos,
    {
        Timestamp { nanos }
    }

    pub fn from_seconds(seconds: u64) -> (t: Timestamp)
        requires
            seconds * NANOS_PER_SECOND <= u64::MAX,
        ensures
            t.nanos == seconds * NANOS_PER_SECOND,
    {
        Timestamp { nanos: seconds * NANOS_PER_SECOND }
    }

    pub fn nanos(&self) -> (n: u64)
        ensures
            n == self.nanos,
    {
        self.nanos
    }

    pub fn seconds(&self) -> (n: u64)
        ensures
            n == self.nanos / NANOS_PER_SECOND,
    {
        self.nanos / NANOS_PER_SECOND
    }

    /// The time `seconds` later.
    pub fn plus_seconds(&self, seconds: u64) -> (t: Timestamp)
        requires
            self.nanos + seconds * NANOS_PER_SECOND <= u64::MAX,
        ensures
            t.nanos == self.nanos + seconds * NANOS_PER_SECOND,
    {
        assert(seconds * NANOS_PER_SECOND <= u64::MAX) by (nonlinear_arith)
            requires
                self.nanos + seconds * NANOS_PER_SECOND <= u64::MAX,
                self.nanos >= 0,
        ;
        Timestamp { nanos: self.nanos + seconds * NANOS_PER_SECOND }
    }
}

/// The block in which an operation runs.
#[derive(Clone, Copy, Debug, PartialEq, Eq)]
pub struct BlockInfo {
    pub height: u64,
    pub time: Timestamp,
}

/// What the host tells an operation about its surroundings.
#[derive(Clone, Copy, Debug, PartialEq, Eq)]
pub struct Env {
    pub block: BlockInfo,
}

/// Who sent a message, and the funds that came with it.
#[derive(Clone, Debug, PartialEq, Eq)]
pub struct MessageInfo {
    pub sender: String,
    pub funds: Vec<Coin>,
}

/// One key and value that an operation reports.
#[derive(Clone, Debug, PartialEq, Eq)]
pub struct Attribute {
    pub key: String,
    pub value: String,
}

pub struct AttributeView {
    pub key: Seq<char>,
    pub value: Seq<char>,
}

impl View for Attribute {
    type V = AttributeView;

    open spec fn view(&self) -> AttributeView {
        AttributeView { key: self.key@, value: self.value@ }
    }
}

/// The attribute `key` = `value`, as a view.
pub open spec fn attr_view(key: Seq<char>, value: Seq<char>) -> AttributeView {
    AttributeView { key, value }
}

/// The attribute `key` = `value`.
pub fn attr(key: &str, value: String) -> (a: Attribute)
    ensures
        a@ == attr_view(key@, value@),
{
    Attribute { key: String::from_str(key), value }
}

/// An attribute whose value is a string literal.
pub fn attr_str(key: &str, value: &str) -> (a: Attribute)
    ensures
        a@ == attr_view(key@, value@),
{
    Attribute { key: String::from_str(key), value: String::from_str(value) }
}

/// A named group of attributes.
#[derive(Clone, Debug, PartialEq, Eq)]
pub struct Event {
    pub ty: String,
    pub attributes: Vec<Attribute>,
}

pub struct EventView {
    pub ty: Seq<char>,
    pub attributes: Seq<AttributeView>,
}

impl View for Event {
    type V = EventView;

    open spec fn view(&self) -> EventView {
        EventView { ty: self.ty@, attributes: views(self.attributes@) }
    }
}

/// How the points of one member changed: `old` is `None` for a new member,
/// `new` is `None` for one that left.
#[derive(Clone, Debug, PartialEq, Eq)]
pub struct MemberDiff {
    pub key: String,
    pub old: Option<u64>,
    pub new: Option<u64>,
}

pub struct DiffView {
    pub key: Seq<char>,
    pub old: Option<u64>,
    pub new: Option<u64>,
}

impl View for MemberDiff {
    type V = DiffView;

    open spec fn view(&self) -> DiffView {
        DiffView { key: self.key@, old: self.old, new: self.new }
    }
}

impl MemberDiff {
    pub fn new(addr: String, old_points: Option<u64>, new_points: Option<u64>) -> (d: MemberDiff)
        ensures
            d@ == (DiffView { key: addr@, old: old_points, new: new_points }),
    {
        MemberDiff { key: addr, old: old_points, new: new_points }
    }

    /// A copy of the diff.
    pub fn duplicate(&self) -> (d: MemberDiff)
        ensures
            d@ == self@,
    {
        MemberDiff { key: self.key.clone(), old: self.old, new: self.new }
    }
}

/// Copies a list of diffs.
pub fn duplicate_diffs(diffs: &Vec<MemberDiff>) -> (r: Vec<MemberDiff>)
    ensures
        views(r@) == views(diffs@),
{
    let mut r: Vec<MemberDiff> = Vec::new();
    let mut i: usize = 0;
    while i < diffs.len()
        invariant
            i <= diffs@.len(),
            r@.len() == i,
            forall|j: int| 0 <= j < i ==> r@[j]@ == diffs@[j]@,
        decreases diffs@.len() - i,
    {
        r.push(diffs[i].duplicate());
        i = i + 1;
    }
    assert(views(r@) =~= views(diffs@));
    r
}

/// A member with its points.
#[derive(Clone, Debug, PartialEq, Eq)]
pub struct Member {
    pub addr: String,
    pub points: u64,
    pub start_height: Option<u64>,
}

pub struct MemberView {
    pub addr: Seq<char>,
    pub points: u64,
    pub start_height: Option<u64>,
}

impl View for Member {
    type V = MemberView;

    open spec fn view(&self) -> MemberView {
        MemberView { addr: self.addr@, points: self.points, start_height: self.start_height }
    }
}

/// A right that an engine asks of the host.
#[derive(Clone, Copy, Debug, PartialEq, Eq)]
pub enum Privilege {
    /// To be called at the end of every block.
    EndBlocker,
    /// To move tokens into and out of custody for vesting accounts.
    Delegator,
}

/// A message that an operation hands to the host, to be carried out after it.
#[derive(Clone, Debug, PartialEq, Eq)]
pub enum Msg {
    /// Transfer from the engine's balance.
    Send { to_address: String, amount: Coin },
    /// Destroy tokens of the engine's balance.
    Burn { amount: Coin },
    /// Take vesting tokens of `staker` into custody.
    Delegate { funds: Coin, staker: String },
    /// Give vesting tokens back to `recipient`.
    Undelegate { funds: Coin, recipient: String },
    /// Tell the contract `contract` how memberships changed.
    MemberChangedHook { contract: String, diffs: Vec<MemberDiff> },
    /// Ask the host for a privilege.
    RequestPrivilege { privilege: Privilege },
    /// Tell the contract `contract` to slash the portion `portion` of what `addr` holds.
    Slash { contract: String, addr: String, portion: crate::decimal::Decimal },
    /// Hand `funds` to the contract `contract` and tell it to distribute them.
    DistributeRewards { contract: String, funds: Coin },
    /// Tell the contract `contract` which members leave it and which join it or get other points.
    UpdateMembers { contract: String, remove: Vec<String>, add: Vec<Member> },
}

pub enum MsgView {
    Send { to_address: Seq<char>, amount: CoinView },
    Burn { amount: CoinView },
    Delegate { funds: CoinView, staker: Seq<char> },
    Undelegate { funds: CoinView, recipient: Seq<char> },
    MemberChangedHook { contract: Seq<char>, diffs: Seq<DiffView> },
    RequestPrivilege { privilege: Privilege },
    Slash { contract: Seq<char>, addr: Seq<char>, portion: crate::decimal::Decimal },
    DistributeRewards { contract: Seq<char>, funds: CoinView },
    UpdateMembers { contract: Seq<char>, remove: Seq<Seq<char>>, add: Seq<MemberView> },
}

impl View for Msg {
    type V = MsgView;

    open spec fn view(&self) -> MsgView {
        match self {
            Msg::Send { to_address, amount } => MsgView::Send { to_address: to_address@, amount: amount@ },
            Msg::Burn { amount } => MsgView::Burn { amount: amount@ },
            Msg::Delegate { funds, staker } => MsgView::Delegate { funds: funds@, staker: staker@ },
            Msg::Undelegate { funds, recipient } => MsgView::Undelegate {
                funds: funds@,
                recipient: recipient@,
            },
            Msg::MemberChangedHook { contract, diffs } => MsgView::MemberChangedHook {
                contract: contract@,
                diffs: views(diffs@),
            },
            Msg::RequestPrivilege { privilege } => MsgView::RequestPrivilege { privilege: *privilege },
            Msg::Slash { contract, addr, portion } => MsgView::Slash {
                contract: contract@,
                addr: addr@,
                portion: *portion,
            },
            Msg::DistributeRewards { contract, funds } => MsgView::DistributeRewards {
                contract: contract@,
                funds: funds@,
            },
            Msg::UpdateMembers { contract, remove, add } => MsgView::UpdateMembers {
                contract: contract@,
                remove: views(remove@),
                add: views(add@),
            },
        }
    }
}

/// What a successful operation reports: attributes, messages for the host, events.
#[derive(Clone, Debug, PartialEq, Eq)]
pub struct Response {
    pub attributes: Vec<Attribute>,
    pub messages: Vec<Msg>,
    pub events: Vec<Event>,
}

pub struct ResponseView {
    pub attributes: Seq<AttributeView>,
    pub messages: Seq<MsgView>,
    pub events: Seq<EventView>,
}

impl View for Response {
    type V = ResponseView;

    open spec fn view(&self) -> ResponseView {
        ResponseView {
            attributes: views(self.attributes@),
            messages: views(self.messages@),
            events: views(self.events@),
        }
    }
}

/// The tokens that the message `m` takes out of what the engine holds: what
/// it sends, burns or gives back out of custody.
pub open spec fn tokens_out_of(m: MsgView) -> int {
    match m {
        MsgView::Send { to_address, amount } => amount.amount as int,
        MsgView::Burn { amount } => amount.amount as int,
        MsgView::Undelegate { funds, recipient } => funds.amount as int,
        _ => 0,
    }
}

/// The tokens that the messages `msgs` together take out of what the engine holds.
pub open spec fn tokens_out(msgs: Seq<MsgView>) -> int
    decreases msgs.len(),
{
    if msgs.len() == 0 {
        0
    } else {
        tokens_out(msgs.drop_last()) + tokens_out_of(msgs.last())
    }
}

/// The tokens that the message `m` brings in: what it takes into custody.
pub open spec fn tokens_in_of(m: MsgView) -> int {
    match m {
        MsgView::Delegate { funds, staker } => funds.amount as int,
        _ => 0,
    }
}

/// The tokens that the messages `msgs` together bring in.
pub open spec fn tokens_in(msgs: Seq<MsgView>) -> int
    decreases msgs.len(),
{
    if msgs.len() == 0 {
        0
    } else {
        tokens_in(msgs.drop_last()) + tokens_in_of(msgs.last())
    }
}

/// Messages that each bring nothing in bring nothing in together.
pub proof fn lemma_nothing_in(msgs: Seq<MsgView>)
    requires
        forall|i: int| 0 <= i < msgs.len() ==> tokens_in_of(#[trigger] msgs[i]) == 0,
    ensures
        tokens_in(msgs) == 0,
    decreases msgs.len(),
{
    if msgs.len() > 0 {
        lemma_nothing_in(msgs.drop_last());
    }
}

/// What two runs of messages move, they move together.
pub proof fn lemma_tokens_of_both(a: Seq<MsgView>, b: Seq<MsgView>)
    ensures
        tokens_out(a + b) == tokens_out(a) + tokens_out(b),
        tokens_in(a + b) == tokens_in(a) + tokens_in(b),
    decreases b.len(),
{
    if b.len() == 0 {
        assert(a + b =~= a);
    } else {
        lemma_tokens_of_both(a, b.drop_last());
        assert((a + b).drop_last() =~= a + b.drop_last());
        assert((a + b).last() == b.last());
    }
}

/// One more message moves what it moves.
pub proof fn lemma_tokens_pushed(a: Seq<MsgView>, m: MsgView)
    ensures
        tokens_out(a.push(m)) == tokens_out(a) + tokens_out_of(m),
        tokens_in(a.push(m)) == tokens_in(a) + tokens_in_of(m),
{
    assert(a.push(m).drop_last() =~= a);
}

/// Messages that each take nothing out of the balance take nothing out together.
pub proof fn lemma_nothing_out(msgs: Seq<MsgView>)
    requires
        forall|i: int| 0 <= i < msgs.len() ==> tokens_out_of(#[trigger] msgs[i]) == 0,
    ensures
        tokens_out(msgs) == 0,
    decreases msgs.len(),
{
    if msgs.len() > 0 {
        lemma_nothing_out(msgs.drop_last());
    }
}

/// One message takes out of the balance what it sends or burns.
pub proof fn lemma_one_out(m: MsgView)
    ensures
        tokens_out(seq![m]) == tokens_out_of(m),
{
    assert(seq![m].drop_last() =~= Seq::<MsgView>::empty());
    assert(tokens_out(seq![m].drop_last()) == 0);
}

/// The response that reports nothing.
pub open spec fn empty_response() -> ResponseView {
    ResponseView { attributes: Seq::empty(), messages: Seq::empty(), events: Seq::empty() }
}

impl Response {
    /// A response that reports nothing.
    pub fn new() -> (r: Response)
        ensures
            r@ == empty_response(),
    {
        let r = Response { attributes: Vec::new(), messages: Vec::new(), events: Vec::new() };
        assert(views(r.attributes@) =~= Seq::empty());
        assert(views(r.messages@) =~= Seq::empty());
        assert(views(r.events@) =~= Seq::empty());
        r
    }

    /// Appends the attribute `key` = `value`.
    pub fn add_attribute(&mut self, key: &str, value: String)
        ensures
            final(self)@ == (ResponseView {
                attributes: old(self)@.attributes.push(attr_view(key@, value@)),
                ..old(self)@
            }),
    {
        let a = attr(key, value);
        proof {
            lemma_views_push(self.attributes@, a);
        }
        self.attributes.push(a);
    }

    /// Appends an attribute whose value is a string literal.
    pub fn add_attribute_str(&mut self, key: &str, value: &str)
        ensures
            final(self)@ == (ResponseView {
                attributes: old(self)@.attributes.push(attr_view(key@, value@)),
                ..old(self)@
            }),
    {
        let a = attr_str(key, value);
        proof {
            lemma_views_push(self.attributes@, a);
        }
        self.attributes.push(a);
    }

    /// Appends a message.
    pub fn add_message(&mut self, msg: Msg)
        ensures
            final(self)@ == (ResponseView { messages: old(self)@.messages.push(msg@), ..old(self)@ }),
    {
        proof {
            lemma_views_push(self.messages@, msg);
        }
        self.messages.push(msg);
    }

    /// Appends the messages of `msgs`, in order.
    pub fn add_messages(&mut self, msgs: Vec<Msg>)
        ensures
            final(self)@ == (ResponseView {
                messages: old(self)@.messages + views(msgs@),
                ..old(self)@
            }),
    {
        let mut msgs = msgs;
        proof {
            lemma_views_add(self.messages@, msgs@);
        }
        self.messages.append(&mut msgs);
    }

    /// Appends an event.
    pub fn add_event(&mut self, event: Event)
        ensures
            final(self)@ == (ResponseView { events: old(self)@.events.push(event@), ..old(self)@ }),
    {
        proof {
            lemma_views_push(self.events@, event);
        }
        self.events.push(event);
    }
}

} // verus!
