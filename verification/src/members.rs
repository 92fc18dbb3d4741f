//! The points of the members, with their total and with a record of every
//! change, from which the points at any earlier height can be told.

use crate::keyed::{AddrMap, Entry};
use crate::text::{addr_before, lemma_addr_before_asymmetric, lemma_addr_before_irreflexive, lemma_addr_before_total, lemma_addr_before_transitive, side_of, Side};
use crate::types::{Member, MemberView, views};
use vstd::prelude::*;

verus! {

/// The value under `k` in `m`, if there is one.
pub open spec fn lookup<K, V>(m: Map<K, V>, k: K) -> Option<V> {
    if m.contains_key(k) {
        Some(m[k])
    } else {
        None
    }
}

/// The points that stand for an optional membership: none for no member.
pub open spec fn points_or_zero(p: Option<u64>) -> int {
    match p {
        Some(x) => x as int,
        None => 0,
    }
}

/// The measure by which points are summed.
pub open spec fn points_measure() -> spec_fn(Seq<char>, u64) -> int {
    |k: Seq<char>, p: u64| p as int
}

/// The points that `addr` had before the first write to it at `height`.
#[derive(Clone, Debug, PartialEq, Eq)]
pub struct Change {
    pub addr: String,
    pub height: u64,
    pub old: Option<u64>,
}

/// The changes that are on record, by address and height.
pub type ChangeLog = Map<(Seq<char>, u64), Option<u64>>;

/// The record after a write to `addr` at `height`, before which it had `old`:
/// only the first write at a height is recorded.
pub open spec fn recorded(log: ChangeLog, addr: Seq<char>, height: u64, old: Option<u64>) -> ChangeLog {
    if log.contains_key((addr, height)) {
        log
    } else {
        log.insert((addr, height), old)
    }
}

/// `h2` is the first height from `h` on with a recorded change of `addr`.
pub open spec fn first_change_from(log: ChangeLog, addr: Seq<char>, h: u64, h2: u64) -> bool {
    &&& h <= h2
    &&& log.contains_key((addr, h2))
    &&& forall|x: u64| h <= x < h2 ==> !log.contains_key((addr, x))
}

/// What the members hold: the points of each, the recorded changes, the total.
pub struct MembersView {
    pub points: Map<Seq<char>, u64>,
    pub log: ChangeLog,
    pub total: int,
}

/// The points of `addr` at the start of the block `h`: what stood there before
/// the first change recorded at `h` or later, or the present points where
/// there was no such change.
pub open spec fn points_at(m: MembersView, addr: Seq<char>, h: u64) -> Option<u64> {
    if exists|h2: u64| first_change_from(m.log, addr, h, h2) {
        m.log[(addr, choose|h2: u64| first_change_from(m.log, addr, h, h2))]
    } else {
        lookup(m.points, addr)
    }
}

/// The members after the points of `addr` were set to `new` at `height`
/// (`None` takes the member out).
pub open spec fn members_set(m: MembersView, addr: Seq<char>, new: Option<u64>, height: u64) -> MembersView {
    MembersView {
        points: match new {
            Some(p) => m.points.insert(addr, p),
            None => m.points.remove(addr),
        },
        log: recorded(m.log, addr, height, lookup(m.points, addr)),
        total: m.total - points_or_zero(lookup(m.points, addr)) + points_or_zero(new),
    }
}

/// The members and their points.
#[derive(Clone, Debug, PartialEq, Eq)]
pub struct Members {
    pub current: AddrMap<u64>,
    pub changes: Vec<Change>,
    pub total: u64,
}

/// No two changes in `s` are for the same address and height.
pub open spec fn distinct_changes(s: Seq<Change>) -> bool {
    forall|i: int, j: int|
        0 <= i < j < s.len() ==> !(#[trigger] s[i].addr@ == #[trigger] s[j].addr@ && s[i].height == s[j].height)
}

/// Some change in `s` is for `k`.
pub open spec fn has_change(s: Seq<Change>, k: (Seq<char>, u64)) -> bool {
    exists|i: int| 0 <= i < s.len() && #[trigger] s[i].addr@ == k.0 && s[i].height == k.1
}

/// The position in `s` of the change for `k`.
pub open spec fn change_slot(s: Seq<Change>, k: (Seq<char>, u64)) -> int {
    choose|i: int| 0 <= i < s.len() && #[trigger] s[i].addr@ == k.0 && s[i].height == k.1
}

/// The record that the changes in `s` stand for.
pub open spec fn log_of(s: Seq<Change>) -> ChangeLog {
    Map::new(|k: (Seq<char>, u64)| has_change(s, k), |k: (Seq<char>, u64)| s[change_slot(s, k)].old)
}

/// Among distinct changes, the one at position `i` is the one on record under its key.
pub proof fn lemma_change_slot(s: Seq<Change>, i: int)
    requires
        distinct_changes(s),
        0 <= i < s.len(),
    ensures
        log_of(s).contains_key((s[i].addr@, s[i].height)),
        log_of(s)[(s[i].addr@, s[i].height)] == s[i].old,
{
    let k = (s[i].addr@, s[i].height);
    assert(has_change(s, k));
    let j = change_slot(s, k);
    if j < i {
        assert(!(s[j].addr@ == s[i].addr@ && s[j].height == s[i].height));
    }
    if i < j {
        assert(!(s[i].addr@ == s[j].addr@ && s[i].height == s[j].height));
    }
}

impl View for Members {
    type V = MembersView;

    open spec fn view(&self) -> MembersView {
        MembersView { points: self.current@, log: log_of(self.changes@), total: self.total as int }
    }
}

/// The member that the entry `e` stands for.
pub open spec fn member_of(e: Entry<u64>) -> MemberView {
    MemberView { addr: e.key@, points: e.value, start_height: None }
}

/// `out` holds the first `limit` of the entries from position `a` on, and
/// the entries from `a` on are those whose address comes after `start`.
pub open spec fn lists_from_at(
    entries: Seq<Entry<u64>>,
    start: Option<Seq<char>>,
    limit: int,
    out: Seq<MemberView>,
    a: int,
) -> bool {
    &&& 0 <= a <= entries.len()
    &&& forall|j: int|
        0 <= j < entries.len() ==> (j >= a <==> (start is None || crate::text::addr_before(
            start->0,
            #[trigger] entries[j].key@,
        )))
    &&& out.len() == (if entries.len() - a < limit {
        entries.len() - a
    } else {
        limit
    })
    &&& forall|i: int| 0 <= i < out.len() ==> #[trigger] out[i] == member_of(entries[a + i])
}

/// `out` lists, in ascending address order, the first `limit` of the entries
/// whose address comes after `start` (of all entries where `start` is `None`).
pub open spec fn lists_from(
    entries: Seq<Entry<u64>>,
    start: Option<Seq<char>>,
    limit: int,
    out: Seq<MemberView>,
) -> bool {
    exists|a: int| #[trigger] lists_from_at(entries, start, limit, out, a)
}

impl Members {
    /// The points sum to the total, the entries are in order, and no change is recorded twice.
    pub open spec fn wf(&self) -> bool {
        &&& self.current.wf()
        &&& self.total as int == self.current.total(points_measure())
        &&& distinct_changes(self.changes@)
    }

    /// The sum of the points of all members.
    pub open spec fn sum_of_points(&self) -> int {
        self.current.total(points_measure())
    }

    /// No members.
    pub fn new() -> (m: Members)
        ensures
            m.wf(),
            m@.points == Map::<Seq<char>, u64>::empty(),
            m@.log == Map::<(Seq<char>, u64), Option<u64>>::empty(),
            m@.total == 0,
    {
        let m = Members { current: AddrMap::new(), changes: Vec::new(), total: 0 };
        assert(m@.log =~= Map::<(Seq<char>, u64), Option<u64>>::empty());
        m
    }

    /// The points of `addr`, if it is a member.
    pub fn may_load(&self, addr: &String) -> (r: Option<u64>)
        requires
            self.wf(),
        ensures
            r == lookup(self@.points, addr@),
    {
        match self.current.get(addr) {
            Some(p) => Some(*p),
            None => None,
        }
    }

    /// The total of all points.
    pub fn total(&self) -> (t: u64)
        requires
            self.wf(),
        ensures
            t == self@.total,
            t == self.sum_of_points(),
    {
        self.total
    }

    /// Whether a change of `addr` at `height` is on record.
    fn has_record(&self, addr: &String, height: u64) -> (r: bool)
        ensures
            r == self@.log.contains_key((addr@, height)),
    {
        let mut i: usize = 0;
        while i < self.changes.len()
            invariant
                i <= self.changes@.len(),
                forall|j: int| 0 <= j < i ==> !(#[trigger] self.changes@[j].addr@ == addr@ && self.changes@[j].height == height),
            decreases self.changes@.len() - i,
        {
            if self.changes[i].height == height && self.changes[i].addr == *addr {
                return true;
            }
            i = i + 1;
        }
        false
    }

    /// Puts what `addr` holds on record for `height`, unless a change of it at that height is there.
    fn record(&mut self, addr: &String, height: u64)
        requires
            old(self).wf(),
        ensures
            final(self).wf(),
            final(self).current == old(self).current,
            final(self).total == old(self).total,
            final(self)@.log == recorded(old(self)@.log, addr@, height, lookup(old(self)@.points, addr@)),
    {
        if self.has_record(addr, height) {
            return ;
        }
        let old_points = self.may_load(addr);
        let ghost before = self.changes@;
        let c = Change { addr: addr.clone(), height, old: old_points };
        self.changes.push(c);
        proof {
            let after = self.changes@;
            assert forall|i: int, j: int| 0 <= i < j < after.len() implies !(#[trigger] after[i].addr@
                == #[trigger] after[j].addr@ && after[i].height == after[j].height) by {
                if j == before.len() {
                    assert(before[i] == after[i]);
                    if after[i].addr@ == addr@ && after[i].height == height {
                        assert(has_change(before, (addr@, height)));
                    }
                } else {
                    assert(before[i] == after[i] && before[j] == after[j]);
                }
            }
            let goal = recorded(log_of(before), addr@, height, old_points);
            assert(log_of(after) =~= goal) by {
                assert forall|k: (Seq<char>, u64)| log_of(after).contains_key(k) == goal.contains_key(k) by {
                    if has_change(before, k) {
                        let j = change_slot(before, k);
                        assert(after[j] == before[j]);
                    }
                    if has_change(after, k) {
                        let j = change_slot(after, k);
                        if j < before.len() {
                            assert(after[j] == before[j]);
                        }
                    }
                    if k == (addr@, height) {
                        assert(after[before.len() as int].addr@ == k.0);
                    }
                }
                assert forall|k: (Seq<char>, u64)| log_of(after).contains_key(k) implies log_of(after)[k]
                    == goal[k] by {
                    let j = change_slot(after, k);
                    lemma_change_slot(after, j);
                    if j < before.len() {
                        assert(after[j] == before[j]);
                        lemma_change_slot(before, j);
                    }
                }
            }
        }
    }

    /// Sets the points of `addr` to `new` at `height`, or takes the member out
    /// for `None`, and returns what it held.
    pub fn set(&mut self, addr: &String, new: Option<u64>, height: u64) -> (r: Option<u64>)
        requires
            old(self).wf(),
            members_set(old(self)@, addr@, new, height).total <= u64::MAX,
        ensures
            final(self).wf(),
            final(self)@ == members_set(old(self)@, addr@, new, height),
            r == lookup(old(self)@.points, addr@),
            old(self).current.has(addr@) && new is Some ==> crate::keyed::keys_of(final(self).current.entries@)
                == crate::keyed::keys_of(old(self).current.entries@) && forall|j: int|
                0 <= j < old(self).current.entries@.len() && j != old(self).current.slot(addr@)
                    ==> final(self).current.entries@[j].value == old(self).current.entries@[j].value,
    {
        let old_points = self.may_load(addr);
        self.record(addr, height);
        let ghost mid = *self;
        proof {
            if old_points is Some {
                let i = self.current.slot(addr@);
                self.current.lemma_slot(i);
                assert(crate::keyed::measures(self.current.entries@, points_measure())[i] == old_points->0 as int);
                assert forall|j: int| 0 <= j < self.current.entries@.len() implies crate::keyed::measures(
                    self.current.entries@,
                    points_measure(),
                )[j] >= 0 by {}
                crate::keyed::lemma_sum_bounds(
                    crate::keyed::measures(self.current.entries@, points_measure()),
                    i,
                );
            }
        }
        let base: u64 = match old_points {
            Some(p) => self.total - p,
            None => self.total,
        };
        match new {
            Some(p) => {
                self.current.insert(addr.clone(), p);
                self.total = base + p;
            },
            None => {
                self.current.remove(addr);
                self.total = base;
            },
        }
        proof {
            assert(self.current.total(points_measure()) == mid.current.total(points_measure())
                - points_or_zero(old_points) + points_or_zero(new));
            assert(self@.points =~= members_set(old(self)@, addr@, new, height).points);
        }
        old_points
    }

    /// The points that `addr` had at the start of the block `height`.
    pub fn may_load_at_height(&self, addr: &String, height: u64) -> (r: Option<u64>)
        requires
            self.wf(),
        ensures
            r == points_at(self@, addr@, height),
    {
        let mut best: Option<usize> = None;
        let mut i: usize = 0;
        while i < self.changes.len()
            invariant
                self.wf(),
                i <= self.changes@.len(),
                match best {
                    Some(b) => b < i && self.changes@[b as int].addr@ == addr@ && self.changes@[b as int].height
                        >= height && forall|j: int|
                        0 <= j < i && #[trigger] self.changes@[j].addr@ == addr@ && self.changes@[j].height
                            >= height ==> self.changes@[j].height >= self.changes@[b as int].height,
                    None => forall|j: int|
                        0 <= j < i ==> !(#[trigger] self.changes@[j].addr@ == addr@ && self.changes@[j].height
                            >= height),
                },
            decreases self.changes@.len() - i,
        {
            if self.changes[i].height >= height && self.changes[i].addr == *addr {
                let better = match best {
                    Some(b) => self.changes[i].height < self.changes[b].height,
                    None => true,
                };
                if better {
                    best = Some(i);
                }
            }
            i = i + 1;
        }
        match best {
            Some(b) => {
                proof {
                    let s = self.changes@;
                    let h2 = s[b as int].height;
                    lemma_change_slot(s, b as int);
                    assert(first_change_from(self@.log, addr@, height, h2)) by {
                        assert forall|x: u64| height <= x < h2 implies !self@.log.contains_key((addr@, x)) by {
                            if has_change(s, (addr@, x)) {
                                let j = change_slot(s, (addr@, x));
                                assert(s[j].height >= h2);
                            }
                        }
                    }
                    let h3 = choose|h3: u64| first_change_from(self@.log, addr@, height, h3);
                    assert(h3 == h2) by {
                        if h3 < h2 {
                            assert(!self@.log.contains_key((addr@, h3)));
                        }
                        if h2 < h3 {
                            assert(!self@.log.contains_key((addr@, h2)));
                        }
                    }
                }
                self.changes[b].old
            },
            None => {
                proof {
                    let s = self.changes@;
                    assert forall|h2: u64| !first_change_from(self@.log, addr@, height, h2) by {
                        if first_change_from(self@.log, addr@, height, h2) {
                            let j = change_slot(s, (addr@, h2));
                            assert(s[j].addr@ == addr@ && s[j].height >= height);
                        }
                    }
                }
                self.may_load(addr)
            },
        }
    }

    /// The members in ascending address order: those after `start_after`, at most `limit` of them.
    pub fn list(&self, start_after: Option<&String>, limit: usize) -> (r: Vec<Member>)
        requires
            self.wf(),
        ensures
            lists_from(
                self.current.entries@,
                match start_after {
                    Some(s) => Some(s@),
                    None => None,
                },
                limit as int,
                views(r@),
            ),
    {
        let first: usize = match start_after {
            Some(s) => {
                let n = self.current.len();
                let (i, found) = self.current.find(s);
                proof {
                    crate::text::lemma_addr_before_irreflexive(s@);
                    assert forall|j: int| 0 <= j < i implies !crate::text::addr_before(
                        s@,
                        #[trigger] self.current.entries@[j].key@,
                    ) by {
                        crate::text::lemma_addr_before_asymmetric(self.current.entries@[j].key@, s@);
                    }
                }
                if found {
                    i + 1
                } else {
                    i
                }
            },
            None => 0,
        };
        let mut out: Vec<Member> = Vec::new();
        let mut i: usize = first;
        while i < self.current.entries.len() && out.len() < limit
            invariant
                first <= i <= self.current.entries@.len(),
                out@.len() == i - first,
                out@.len() <= limit,
                forall|j: int| 0 <= j < out@.len() ==> out@[j]@ == member_of(#[trigger] self.current.entries@[first + j]),
            decreases self.current.entries@.len() - i,
        {
            let e = &self.current.entries[i];
            out.push(Member { addr: e.key.clone(), points: e.value, start_height: None });
            i = i + 1;
        }
        proof {
            let entries = self.current.entries@;
            let start = match start_after {
                Some(s) => Some(s@),
                None => None,
            };
            let a = first as int;
            assert(forall|j: int|
                0 <= j < entries.len() ==> (j >= a <==> (start is None || crate::text::addr_before(
                    start->0,
                    #[trigger] entries[j].key@,
                ))));
            assert(lists_from_at(entries, start, limit as int, views(out@), a));
        }
        out
    }
}


/// A member with `points` points at `addr` ranks above one with `other_points` points at
/// `other_addr`: it has more points, or as many and the later address.
pub open spec fn ranks_above(points: u64, addr: Seq<char>, other_points: u64, other_addr: Seq<char>) -> bool {
    points > other_points || (points == other_points && addr_before(other_addr, addr))
}

/// The entry `e` ranks below the bound `start`; every entry does where there is no bound.
pub open spec fn below_bound(start: Option<(u64, Seq<char>)>, e: Entry<u64>) -> bool {
    match start {
        Some(s) => ranks_above(s.0, s.1, e.value, e.key@),
        None => true,
    }
}

/// The bound below which a ranked listing starts, as a view.
pub open spec fn bound_view(start: Option<(u64, String)>) -> Option<(u64, Seq<char>)> {
    match start {
        Some(s) => Some((s.0, s.1@)),
        None => None,
    }
}

/// `out` lists, from the highest rank down, the first `limit` of the entries
/// that rank below `start`: every item is such an entry, the items descend
/// in rank, and an entry below `start` is missing only from a full list, whose
/// last item it ranks below.
pub open spec fn ranked_from(
    entries: Seq<Entry<u64>>,
    start: Option<(u64, Seq<char>)>,
    limit: int,
    out: Seq<MemberView>,
) -> bool {
    &&& out.len() <= limit
    &&& forall|i: int|
        0 <= i < out.len() ==> exists|j: int|
            0 <= j < entries.len() && #[trigger] out[i] == member_of(#[trigger] entries[j]) && below_bound(
                start,
                entries[j],
            )
    &&& forall|i: int, j: int|
        0 <= i < j < out.len() ==> ranks_above(
            (#[trigger] out[i]).points,
            out[i].addr,
            (#[trigger] out[j]).points,
            out[j].addr,
        )
    &&& forall|j: int|
        0 <= j < entries.len() && below_bound(start, #[trigger] entries[j]) ==> out.contains(
            member_of(entries[j]),
        ) || (out.len() == limit && (limit == 0 || ranks_above(
            out[limit - 1].points,
            out[limit - 1].addr,
            entries[j].value,
            entries[j].key@,
        )))
}

/// Ranking is transitive.
pub proof fn lemma_ranks_transitive(points: u64, addr: Seq<char>, other_points: u64, other_addr: Seq<char>, third_points: u64, third_addr: Seq<char>)
    requires
        ranks_above(points, addr, other_points, other_addr),
        ranks_above(other_points, other_addr, third_points, third_addr),
    ensures
        ranks_above(points, addr, third_points, third_addr),
{
    if points == other_points && other_points == third_points {
        lemma_addr_before_transitive(third_addr, other_addr, addr);
    }
}

/// Of two members with different addresses one ranks above the other, and only one.
pub proof fn lemma_ranks_total(points: u64, addr: Seq<char>, other_points: u64, other_addr: Seq<char>)
    ensures
        addr != other_addr ==> ranks_above(points, addr, other_points, other_addr) || ranks_above(other_points, other_addr, points, addr),
        !(ranks_above(points, addr, other_points, other_addr) && ranks_above(other_points, other_addr, points, addr)),
        !ranks_above(points, addr, points, addr),
{
    lemma_addr_before_total(addr, other_addr);
    lemma_addr_before_irreflexive(addr);
    if addr_before(addr, other_addr) {
        lemma_addr_before_asymmetric(addr, other_addr);
    }
}

/// Whether the member with `points` points at `addr` ranks above the one with `other_points` points at `other_addr`.
pub fn outranks(points: u64, addr: &String, other_points: u64, other_addr: &String) -> (r: bool)
    ensures
        r == ranks_above(points, addr@, other_points, other_addr@),
{
    if points > other_points {
        true
    } else if points < other_points {
        false
    } else {
        match side_of(other_addr, addr) {
            Side::Before => true,
            _ => false,
        }
    }
}

impl Members {
    /// The position of the highest entry that ranks below `start` and, where `last` is given, below the entry at `last`.
    pub fn next_ranked(&self, start: &Option<(u64, String)>, last: Option<usize>) -> (r: Option<usize>)
        requires
            self.wf(),
            last is Some ==> last->0 < self.current.entries@.len(),
        ensures
            match r {
                Some(b) => {
                    &&& b < self.current.entries@.len()
                    &&& self.in_reach(start, last, b as int)
                    &&& forall|k: int|
                        0 <= k < self.current.entries@.len() && self.in_reach(start, last, k) && k != b
                            ==> ranks_above(
                            self.current.entries@[b as int].value,
                            self.current.entries@[b as int].key@,
                            (#[trigger] self.current.entries@[k]).value,
                            self.current.entries@[k].key@,
                        )
                },
                None => forall|k: int| 0 <= k < self.current.entries@.len() ==> !self.in_reach(start, last, k),
            },
    {
        let entries = &self.current.entries;
        let mut best: Option<usize> = None;
        let mut k: usize = 0;
        while k < entries.len()
            invariant
                self.wf(),
                entries == &self.current.entries,
                k <= entries@.len(),
                last is Some ==> last->0 < entries@.len(),
                match best {
                    Some(b) => {
                        &&& b < k
                        &&& self.in_reach(start, last, b as int)
                        &&& forall|x: int|
                            0 <= x < k && self.in_reach(start, last, x) && x != b ==> ranks_above(
                                entries@[b as int].value,
                                entries@[b as int].key@,
                                (#[trigger] entries@[x]).value,
                                entries@[x].key@,
                            )
                    },
                    None => forall|x: int| 0 <= x < k ==> !self.in_reach(start, last, x),
                },
            decreases entries@.len() - k,
        {
            let e = &entries[k];
            let under_start = match start {
                Some(s) => outranks(s.0, &s.1, e.value, &e.key),
                None => true,
            };
            let under_last = match last {
                Some(l) => outranks(entries[l].value, &entries[l].key, e.value, &e.key),
                None => true,
            };
            if under_start && under_last {
                match best {
                    Some(b) => {
                        proof {
                            self.current.lemma_slot(k as int);
                            self.current.lemma_slot(b as int);
                            lemma_ranks_total(e.value, e.key@, entries@[b as int].value, entries@[b as int].key@);
                        }
                        if outranks(e.value, &e.key, entries[b].value, &entries[b].key) {
                            proof {
                                assert forall|x: int|
                                    0 <= x < k + 1 && self.in_reach(start, last, x) && x != k implies ranks_above(
                                    e.value,
                                    e.key@,
                                    (#[trigger] entries@[x]).value,
                                    entries@[x].key@,
                                ) by {
                                    if x != b {
                                        lemma_ranks_transitive(
                                            e.value,
                                            e.key@,
                                            entries@[b as int].value,
                                            entries@[b as int].key@,
                                            entries@[x].value,
                                            entries@[x].key@,
                                        );
                                    }
                                }
                            }
                            best = Some(k);
                        }
                    },
                    None => {
                        best = Some(k);
                    },
                }
            }
            k = k + 1;
        }
        best
    }

    /// The entry at `k` ranks below `start` and, where `last` is given, below the entry at `last`.
    pub open spec fn in_reach(&self, start: &Option<(u64, String)>, last: Option<usize>, k: int) -> bool {
        let e = self.current.entries@[k];
        &&& match start {
            Some(s) => ranks_above(s.0, s.1@, e.value, e.key@),
            None => true,
        }
        &&& match last {
            Some(l) => ranks_above(
                self.current.entries@[l as int].value,
                self.current.entries@[l as int].key@,
                e.value,
                e.key@,
            ),
            None => true,
        }
    }

    /// The members from the highest rank down: those that rank below
    /// `start_after`, at most `limit` of them. More points rank higher; among
    /// equal points the later address does.
    pub fn list_by_points(&self, start_after: Option<(u64, String)>, limit: usize) -> (r: Vec<Member>)
        requires
            self.wf(),
        ensures
            ranked_from(self.current.entries@, bound_view(start_after), limit as int, views(r@)),
    {
        let ghost entries = self.current.entries@;
        let ghost start: Option<(u64, Seq<char>)> = bound_view(start_after);
        let mut out: Vec<Member> = Vec::new();
        let mut last: Option<usize> = None;
        let mut done = false;
        while out.len() < limit && !done
            invariant
                self.wf(),
                entries == self.current.entries@,
                start == bound_view(start_after),
                out@.len() <= limit,
                (last is None) == (out@.len() == 0),
                last is Some ==> last->0 < entries.len() && out@[out@.len() - 1]@ == member_of(
                    entries[last->0 as int],
                ),
                forall|i: int|
                    0 <= i < out@.len() ==> exists|j: int|
                        0 <= j < entries.len() && #[trigger] out@[i]@ == member_of(#[trigger] entries[j])
                            && below_bound(start, entries[j]),
                forall|i: int, j: int|
                    0 <= i < j < out@.len() ==> ranks_above(
                        (#[trigger] out@[i]).points,
                        out@[i].addr@,
                        (#[trigger] out@[j]).points,
                        out@[j].addr@,
                    ),
                forall|j: int|
                    0 <= j < entries.len() && below_bound(start, #[trigger] entries[j]) ==> views(out@).contains(
                        member_of(entries[j]),
                    ) || self.in_reach(&start_after, last, j),
                done ==> forall|j: int|
                    0 <= j < entries.len() && below_bound(start, #[trigger] entries[j]) ==> views(out@).contains(
                        member_of(entries[j]),
                    ),
            decreases limit - out@.len() + (if done { 0int } else { 1int }),
        {
            match self.next_ranked(&start_after, last) {
                Some(b) => {
                    let e = &self.current.entries[b];
                    let m = Member { addr: e.key.clone(), points: e.value, start_height: None };
                    let ghost before = out@;
                    out.push(m);
                    proof {
                        assert(out@[before.len() as int]@ == member_of(entries[b as int]));
                        assert(views(out@)[before.len() as int] == member_of(entries[b as int]));
                        assert forall|i: int, j: int| 0 <= i < j < out@.len() implies ranks_above(
                            (#[trigger] out@[i]).points,
                            out@[i].addr@,
                            (#[trigger] out@[j]).points,
                            out@[j].addr@,
                        ) by {
                            if j == before.len() {
                                let l = last->0 as int;
                                assert(out@[before.len() - 1]@ == member_of(entries[l]));
                                if i < before.len() - 1 {
                                    assert(out@[i] == before[i] && out@[before.len() - 1] == before[before.len() - 1]);
                                    lemma_ranks_transitive(
                                        out@[i].points,
                                        out@[i].addr@,
                                        entries[l].value,
                                        entries[l].key@,
                                        entries[b as int].value,
                                        entries[b as int].key@,
                                    );
                                }
                            } else {
                                assert(out@[i] == before[i] && out@[j] == before[j]);
                            }
                        }
                        assert forall|j: int|
                            0 <= j < entries.len() && below_bound(start, #[trigger] entries[j]) implies views(
                            out@,
                        ).contains(member_of(entries[j])) || self.in_reach(&start_after, Some(b), j) by {
                            if views(before).contains(member_of(entries[j])) {
                                let i = choose|i: int| 0 <= i < views(before).len() && views(before)[i] == member_of(entries[j]);
                                assert(views(out@)[i] == member_of(entries[j]));
                            } else if j == b as int {
                            } else {
                                assert(self.in_reach(&start_after, last, j));
                            }
                        }
                        assert forall|i: int| 0 <= i < out@.len() implies exists|j: int|
                            0 <= j < entries.len() && #[trigger] out@[i]@ == member_of(#[trigger] entries[j])
                                && below_bound(start, entries[j]) by {
                            if i < before.len() {
                                assert(out@[i] == before[i]);
                            } else {
                                assert(out@[i]@ == member_of(entries[b as int]) && below_bound(
                                    start,
                                    entries[b as int],
                                ));
                            }
                        }
                    }
                    last = Some(b);
                },
                None => {
                    done = true;
                },
            }
        }
        proof {
            let o = views(out@);
            assert forall|i: int| 0 <= i < o.len() implies exists|j: int|
                0 <= j < entries.len() && #[trigger] o[i] == member_of(#[trigger] entries[j]) && below_bound(
                    start,
                    entries[j],
                ) by {
                let j = choose|j: int|
                    0 <= j < entries.len() && #[trigger] out@[i]@ == member_of(#[trigger] entries[j])
                        && below_bound(start, entries[j]);
                assert(o[i] == member_of(entries[j]));
            }
            assert forall|i: int, j: int| 0 <= i < j < o.len() implies ranks_above(
                (#[trigger] o[i]).points,
                o[i].addr,
                (#[trigger] o[j]).points,
                o[j].addr,
            ) by {
                assert(ranks_above(out@[i].points, out@[i].addr@, out@[j].points, out@[j].addr@));
            }
            if !done {
                assert forall|j: int|
                    0 <= j < entries.len() && below_bound(start, #[trigger] entries[j]) implies o.contains(
                    member_of(entries[j]),
                ) || (o.len() == limit && (limit == 0 || ranks_above(
                    o[limit - 1].points,
                    o[limit - 1].addr,
                    entries[j].value,
                    entries[j].key@,
                ))) by {
                    if !o.contains(member_of(entries[j])) {
                        if limit > 0 {
                            assert(self.in_reach(&start_after, last, j));
                            assert(o[limit - 1] == out@[limit - 1]@);
                        }
                    }
                }
            }
        }
        out
    }
}

} // verus!
