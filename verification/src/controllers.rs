//! The small registries that every engine keeps: its admin, its hooks, its
//! slashers, and the counters of pre-authorised registrations.

use crate::error::ContractError;
use crate::types::{attr_view, empty_response, views, DiffView, MemberDiff, Msg, MsgView, Response, ResponseView, duplicate_diffs};
use vstd::prelude::*;
use vstd::string::StringExecFns;

verus! {

/// The view of an optional string.
pub open spec fn opt_text(o: Option<String>) -> Option<Seq<char>> {
    match o {
        Some(s) => Some(s@),
        None => None,
    }
}

/// `i` is the first position of `a` in `list`.
pub open spec fn first_at(list: Seq<Seq<char>>, a: Seq<char>, i: int) -> bool {
    &&& 0 <= i < list.len()
    &&& list[i] == a
    &&& forall|j: int| 0 <= j < i ==> list[j] != a
}

/// The first position of `a` in `list`.
pub open spec fn first_index(list: Seq<Seq<char>>, a: Seq<char>) -> int {
    choose|i: int| first_at(list, a, i)
}

/// The list after `a` was registered: `a` at its end, or `None` where `a` is in it already.
pub open spec fn registered(list: Seq<Seq<char>>, a: Seq<char>) -> Option<Seq<Seq<char>>> {
    if list.contains(a) {
        None
    } else {
        Some(list.push(a))
    }
}

/// The list after `a` was taken out: without the first `a`, or `None` where `a` is not in it.
pub open spec fn unregistered(list: Seq<Seq<char>>, a: Seq<char>) -> Option<Seq<Seq<char>>> {
    if list.contains(a) {
        Some(list.remove(first_index(list, a)))
    } else {
        None
    }
}

/// The first position of an item is determined.
pub proof fn lemma_first_index(list: Seq<Seq<char>>, a: Seq<char>, i: int)
    requires
        first_at(list, a, i),
    ensures
        list.contains(a),
        first_index(list, a) == i,
{
    let j = first_index(list, a);
    assert(first_at(list, a, j));
    if j < i {
        assert(list[j] != a);
    }
    if i < j {
        assert(list[i] != a);
    }
}

/// Registering an address and then taking it out again gives the list back.
pub proof fn lemma_register_then_unregister(list: Seq<Seq<char>>, a: Seq<char>)
    requires
        !list.contains(a),
    ensures
        registered(list, a) == Some(list.push(a)),
        unregistered(list.push(a), a) == Some(list),
{
    let l2 = list.push(a);
    assert(l2[list.len() as int] == a);
    assert(first_at(l2, a, list.len() as int)) by {
        assert forall|j: int| 0 <= j < list.len() implies l2[j] != a by {
            assert(list[j] == l2[j]);
        }
    }
    lemma_first_index(l2, a, list.len() as int);
    assert(l2.remove(list.len() as int) =~= list);
}

/// An ordered list of addresses.
#[derive(Clone, Debug, PartialEq, Eq)]
pub struct AddrList {
    pub items: Vec<String>,
}

impl View for AddrList {
    type V = Seq<Seq<char>>;

    open spec fn view(&self) -> Seq<Seq<char>> {
        views(self.items@)
    }
}

impl AddrList {
    pub fn new() -> (l: AddrList)
        ensures
            l@ == Seq::<Seq<char>>::empty(),
    {
        let l = AddrList { items: Vec::new() };
        assert(l@ =~= Seq::<Seq<char>>::empty());
        l
    }

    /// The first position of `addr`.
    pub fn position(&self, addr: &String) -> (r: Option<usize>)
        ensures
            match r {
                Some(i) => first_at(self@, addr@, i as int),
                None => !self@.contains(addr@),
            },
            r.is_some() == self@.contains(addr@),
    {
        let mut i: usize = 0;
        while i < self.items.len()
            invariant
                i <= self.items@.len(),
                forall|j: int| 0 <= j < i ==> self@[j] != addr@,
            decreases self.items@.len() - i,
        {
            if self.items[i] == *addr {
                proof {
                    lemma_first_index(self@, addr@, i as int);
                }
                return Some(i);
            }
            i = i + 1;
        }
        None
    }

    pub fn contains(&self, addr: &String) -> (r: bool)
        ensures
            r == self@.contains(addr@),
    {
        self.position(addr).is_some()
    }

    /// Appends `addr` unless it is in the list; says whether it did.
    pub fn add(&mut self, addr: String) -> (r: bool)
        ensures
            r == !old(self)@.contains(addr@),
            r ==> registered(old(self)@, addr@) == Some(final(self)@),
            !r ==> *final(self) == *old(self),
    {
        if self.contains(&addr) {
            false
        } else {
            assert(views(self.items@.push(addr)) =~= self@.push(addr@));
            self.items.push(addr);
            true
        }
    }

    /// Takes the first `addr` out of the list; says whether there was one.
    pub fn remove(&mut self, addr: &String) -> (r: bool)
        ensures
            r == old(self)@.contains(addr@),
            r ==> unregistered(old(self)@, addr@) == Some(final(self)@),
            !r ==> *final(self) == *old(self),
    {
        match self.position(addr) {
            Some(i) => {
                proof {
                    lemma_first_index(self@, addr@, i as int);
                    assert(views(self.items@.remove(i as int)) =~= self@.remove(i as int));
                }
                self.items.remove(i);
                true
            },
            None => false,
        }
    }

    /// The addresses, in order.
    pub fn list(&self) -> (r: Vec<String>)
        ensures
            views(r@) == self@,
    {
        let mut r: Vec<String> = Vec::new();
        let mut i: usize = 0;
        while i < self.items.len()
            invariant
                i <= self.items@.len(),
                r@.len() == i,
                forall|j: int| 0 <= j < i ==> r@[j]@ == self.items@[j]@,
            decreases self.items@.len() - i,
        {
            r.push(self.items[i].clone());
            i = i + 1;
        }
        assert(views(r@) =~= self@);
        r
    }
}

/// The contracts that are told of every change of membership, in the order
/// in which they were registered.
#[derive(Clone, Debug, PartialEq, Eq)]
pub struct Hooks {
    pub list: AddrList,
}

/// One message for each hook, in order, each carrying all of `diffs`.
pub open spec fn hook_msgs(hooks: Seq<Seq<char>>, diffs: Seq<DiffView>) -> Seq<MsgView> {
    Seq::new(hooks.len(), |i: int| MsgView::MemberChangedHook { contract: hooks[i], diffs })
}

impl View for Hooks {
    type V = Seq<Seq<char>>;

    open spec fn view(&self) -> Seq<Seq<char>> {
        self.list@
    }
}

impl Hooks {
    pub fn new() -> (h: Hooks)
        ensures
            h@ == Seq::<Seq<char>>::empty(),
    {
        Hooks { list: AddrList::new() }
    }

    /// Registers `addr`; fails where it is registered already.
    pub fn add_hook(&mut self, addr: String) -> (r: Result<(), ContractError>)
        ensures
            r.is_ok() <==> !old(self)@.contains(addr@),
            r.is_ok() ==> registered(old(self)@, addr@) == Some(final(self)@),
            r.is_err() ==> r == Err::<(), ContractError>(ContractError::HookAlreadyRegistered) && *final(self)
                == *old(self),
    {
        if self.list.add(addr) {
            Ok(())
        } else {
            Err(ContractError::HookAlreadyRegistered)
        }
    }

    /// Takes `addr` out; fails where it is not registered.
    pub fn remove_hook(&mut self, addr: &String) -> (r: Result<(), ContractError>)
        ensures
            r.is_ok() <==> old(self)@.contains(addr@),
            r.is_ok() ==> unregistered(old(self)@, addr@) == Some(final(self)@),
            r.is_err() ==> r == Err::<(), ContractError>(ContractError::HookNotRegistered) && *final(self)
                == *old(self),
    {
        if self.list.remove(addr) {
            Ok(())
        } else {
            Err(ContractError::HookNotRegistered)
        }
    }

    pub fn list_hooks(&self) -> (r: Vec<String>)
        ensures
            views(r@) == self@,
    {
        self.list.list()
    }

    /// The messages that tell every hook of `diffs`.
    pub fn prepare_hooks(&self, diffs: &Vec<MemberDiff>) -> (r: Vec<Msg>)
        ensures
            views(r@) == hook_msgs(self@, views(diffs@)),
    {
        let mut r: Vec<Msg> = Vec::new();
        let mut i: usize = 0;
        while i < self.list.items.len()
            invariant
                i <= self.list.items@.len(),
                r@.len() == i,
                forall|j: int| 0 <= j < i ==> r@[j]@ == hook_msgs(self@, views(diffs@))[j],
            decreases self.list.items@.len() - i,
        {
            r.push(Msg::MemberChangedHook { contract: self.list.items[i].clone(), diffs: duplicate_diffs(diffs) });
            i = i + 1;
        }
        assert(views(r@) =~= hook_msgs(self@, views(diffs@)));
        r
    }
}

/// The addresses that may slash.
#[derive(Clone, Debug, PartialEq, Eq)]
pub struct Slashers {
    pub list: AddrList,
}

impl View for Slashers {
    type V = Seq<Seq<char>>;

    open spec fn view(&self) -> Seq<Seq<char>> {
        self.list@
    }
}

impl Slashers {
    pub fn new() -> (s: Slashers)
        ensures
            s@ == Seq::<Seq<char>>::empty(),
    {
        Slashers { list: AddrList::new() }
    }

    /// Registers `addr`; fails where it is a slasher already.
    pub fn add_slasher(&mut self, addr: String) -> (r: Result<(), ContractError>)
        ensures
            r.is_ok() <==> !old(self)@.contains(addr@),
            r.is_ok() ==> registered(old(self)@, addr@) == Some(final(self)@),
            r.is_err() ==> *final(self) == *old(self),
            match r {
                Err(ContractError::SlasherAlreadyRegistered(a)) => a@ == addr@,
                Err(_) => false,
                Ok(_) => true,
            },
    {
        if self.list.contains(&addr) {
            Err(ContractError::SlasherAlreadyRegistered(addr))
        } else {
            self.list.add(addr);
            Ok(())
        }
    }

    /// Takes `addr` out; fails where it is no slasher.
    pub fn remove_slasher(&mut self, addr: &String) -> (r: Result<(), ContractError>)
        ensures
            r.is_ok() <==> old(self)@.contains(addr@),
            r.is_ok() ==> unregistered(old(self)@, addr@) == Some(final(self)@),
            r.is_err() ==> *final(self) == *old(self),
            match r {
                Err(ContractError::SlasherNotRegistered(a)) => a@ == addr@,
                Err(_) => false,
                Ok(_) => true,
            },
    {
        if self.list.remove(addr) {
            Ok(())
        } else {
            Err(ContractError::SlasherNotRegistered(addr.clone()))
        }
    }

    pub fn is_slasher(&self, addr: &String) -> (r: bool)
        ensures
            r == self@.contains(addr@),
    {
        self.list.contains(addr)
    }

    pub fn list_slashers(&self) -> (r: Vec<String>)
        ensures
            views(r@) == self@,
    {
        self.list.list()
    }
}

/// How many registrations may still be made by someone who is not the admin.
#[derive(Clone, Copy, Debug, PartialEq, Eq)]
pub struct Preauth {
    pub count: u64,
}

impl Preauth {
    pub fn new(count: u64) -> (p: Preauth)
        ensures
            p.count == count,
    {
        Preauth { count }
    }

    pub fn set_auth(&mut self, count: u64)
        ensures
            final(self).count == count,
    {
        self.count = count;
    }

    pub fn get_auth(&self) -> (c: u64)
        ensures
            c == self.count,
    {
        self.count
    }

    /// Uses up one pre-authorisation; fails where none is left.
    pub fn use_auth(&mut self) -> (r: Result<(), ContractError>)
        ensures
            r.is_ok() <==> old(self).count > 0,
            r.is_ok() ==> final(self).count == old(self).count - 1,
            r.is_err() ==> r == Err::<(), ContractError>(ContractError::NoPreauth) && *final(self) == *old(
                self,
            ),
    {
        if self.count == 0 {
            Err(ContractError::NoPreauth)
        } else {
            self.count = self.count - 1;
            Ok(())
        }
    }
}

/// The one address, if any, that may administer an engine.
#[derive(Clone, Debug, PartialEq, Eq)]
pub struct Admin {
    pub admin: Option<String>,
}

impl View for Admin {
    type V = Option<Seq<char>>;

    open spec fn view(&self) -> Option<Seq<char>> {
        opt_text(self.admin)
    }
}

/// The text that stands for an optional admin in an attribute.
pub open spec fn admin_text(admin: Option<Seq<char>>) -> Seq<char> {
    match admin {
        Some(a) => a,
        None => "None"@,
    }
}

/// What a change of admin reports.
pub open spec fn update_admin_response(sender: Seq<char>, new_admin: Option<Seq<char>>) -> ResponseView {
    ResponseView {
        attributes: seq![
            attr_view("action"@, "update_admin"@),
            attr_view("admin"@, admin_text(new_admin)),
            attr_view("sender"@, sender),
        ],
        ..empty_response()
    }
}

impl Admin {
    pub fn new(admin: Option<String>) -> (a: Admin)
        ensures
            a@ == opt_text(admin),
    {
        Admin { admin }
    }

    pub fn set(&mut self, admin: Option<String>)
        ensures
            final(self)@ == opt_text(admin),
    {
        self.admin = admin;
    }

    /// Whether `caller` is the admin.
    pub fn is_admin(&self, caller: &String) -> (r: bool)
        ensures
            r == (self@ == Some(caller@)),
    {
        match &self.admin {
            Some(owner) => *owner == *caller,
            None => false,
        }
    }

    /// Fails unless `caller` is the admin.
    pub fn assert_admin(&self, caller: &String) -> (r: Result<(), ContractError>)
        ensures
            r.is_ok() <==> self@ == Some(caller@),
            r.is_err() ==> r == Err::<(), ContractError>(ContractError::NotAdmin),
    {
        if self.is_admin(caller) {
            Ok(())
        } else {
            Err(ContractError::NotAdmin)
        }
    }

    /// Hands the administration to `new_admin`, or to nobody. Only the admin may do so.
    pub fn execute_update_admin(&mut self, sender: &String, new_admin: Option<String>) -> (r: Result<
        Response,
        ContractError,
    >)
        ensures
            r.is_ok() <==> old(self)@ == Some(sender@),
            r.is_ok() ==> final(self)@ == opt_text(new_admin) && r.unwrap()@ == update_admin_response(
                sender@,
                opt_text(new_admin),
            ),
            r.is_err() ==> r == Err::<Response, ContractError>(ContractError::NotAdmin) && *final(self)
                == *old(self),
    {
        if !self.is_admin(sender) {
            return Err(ContractError::NotAdmin);
        }
        let admin_str = match &new_admin {
            Some(a) => a.clone(),
            None => String::from_str("None"),
        };
        let mut res = Response::new();
        res.add_attribute_str("action", "update_admin");
        res.add_attribute("admin", admin_str);
        res.add_attribute("sender", sender.clone());
        self.admin = new_admin;
        assert(res@.attributes =~= update_admin_response(sender@, opt_text(new_admin)).attributes);
        Ok(res)
    }

    pub fn query_admin(&self) -> (r: Option<String>)
        ensures
            opt_text(r) == self@,
    {
        match &self.admin {
            Some(a) => Some(a.clone()),
            None => None,
        }
    }
}

} // verus!
