//! The sandboxes that are known, by id.

use dashmap::DashMap;
use vstd::prelude::*;

use crate::sandbox::Sandbox;
#[allow(unused_imports)]
use crate::sandbox::SandboxView;
#[allow(unused_imports)]
use crate::text;

verus! {

/// `dashmap::DashMap`, a concurrent hash map. Nothing is claimed of it here.
#[verifier::external_type_specification]
#[verifier::external_body]
#[verifier::reject_recursive_types(K)]
#[verifier::reject_recursive_types(V)]
#[verifier::reject_recursive_types(S)]
pub struct ExDashMap<K, V, S>(DashMap<K, V, S>);

/// What a map of sandboxes holds, by the text of the key.
pub uninterp spec fn held(map: DashMap<String, Sandbox>) -> Map<Seq<char>, SandboxView>;

/// No sandbox under any id.
pub open spec fn no_sandboxes() -> Map<Seq<char>, SandboxView> {
    Map::empty()
}

/// `DashMap::new`: the map holds nothing.
#[verifier::external_body]
fn map_new() -> (r: DashMap<String, Sandbox>)
    ensures
        held(r) == no_sandboxes(),
{
    DashMap::new()
}

/// `DashMap::insert`: the value stands under the key, in place of any earlier
/// one; nothing else changes. The map is taken exclusively, so no other thread
/// can reach it meanwhile.
#[verifier::external_body]
fn map_insert(map: &mut DashMap<String, Sandbox>, key: String, value: Sandbox)
    ensures
        held(*final(map)) == held(*old(map)).insert(key@, value@),
{
    map.insert(key, value);
}

/// `DashMap::get`, with a copy made of the value by `Sandbox::clone`: the value
/// under the key, where there is one.
#[verifier::external_body]
fn map_get(map: &DashMap<String, Sandbox>, key: &str) -> (r: Option<Sandbox>)
    ensures
        match r {
            Some(s) => held(*map).contains_key(key@) && s@ == held(*map)[key@],
            None => !held(*map).contains_key(key@),
        },
{
    map.get(key).map(|entry| entry.value().clone())
}

/// `DashMap::remove`: the entry under the key leaves the map and its value is
/// returned; nothing else changes.
#[verifier::external_body]
fn map_remove(map: &mut DashMap<String, Sandbox>, key: &str) -> (r: Option<Sandbox>)
    ensures
        match r {
            Some(s) => held(*old(map)).contains_key(key@) && s@ == held(*old(map))[key@],
            None => !held(*old(map)).contains_key(key@),
        },
        held(*final(map)) == held(*old(map)).remove(key@),
{
    map.remove(key).map(|entry| entry.1)
}

/// `DashMap::iter`, of which the keys are kept: every key once, in an order that
/// differs from map to map.
#[verifier::external_body]
fn map_keys(map: &DashMap<String, Sandbox>) -> (r: Vec<String>)
    ensures
        text::texts(r@).no_duplicates(),
        forall|k: Seq<char>| text::texts(r@).contains(k) <==> #[trigger] held(*map).contains_key(k),
{
    map.iter().map(|entry| entry.key().clone()).collect()
}

/// The known sandboxes. Its view maps ids to sandboxes.
pub struct Registry {
    map: DashMap<String, Sandbox>,
}

impl View for Registry {
    type V = Map<Seq<char>, SandboxView>;

    closed spec fn view(&self) -> Map<Seq<char>, SandboxView> {
        held(self.map)
    }
}

/// Whether every sandbox stands under its own id and runs no more commands at
/// once than it may.
pub open spec fn consistent(m: Map<Seq<char>, SandboxView>) -> bool {
    forall|k: Seq<char>| #[trigger]
        m.contains_key(k) ==> m[k].id == k && m[k].active_execs <= m[k].max_concurrent_execs
}

impl Registry {
    /// Whether the registry is consistent.
    pub open spec fn wf(&self) -> bool {
        consistent(self@)
    }

    pub fn new() -> (r: Registry)
        ensures
            r.wf(),
            r@ == no_sandboxes(),
    {
        Registry { map: map_new() }
    }

    /// The sandbox with an id.
    pub fn get(&self, id: &str) -> (r: Option<Sandbox>)
        ensures
            match r {
                Some(s) => self@.contains_key(id@) && s@ == self@[id@],
                None => !self@.contains_key(id@),
            },
    {
        map_get(&self.map, id)
    }

    /// Enter a sandbox under its id, in place of one that stood there.
    pub fn put(&mut self, s: Sandbox)
        requires
            s.active_execs <= s.max_concurrent_execs,
        ensures
            final(self)@ == old(self)@.insert(s@.id, s@),
            old(self).wf() ==> final(self).wf(),
    {
        map_insert(&mut self.map, s.id.clone(), s);
    }

    /// Take out the sandbox with an id.
    pub fn remove(&mut self, id: &str) -> (r: Option<Sandbox>)
        ensures
            match r {
                Some(s) => old(self)@.contains_key(id@) && s@ == old(self)@[id@],
                None => !old(self)@.contains_key(id@),
            },
            final(self)@ == old(self)@.remove(id@),
            old(self).wf() ==> final(self).wf(),
    {
        map_remove(&mut self.map, id)
    }

    /// The ids, each once, in no particular order.
    pub fn ids(&self) -> (r: Vec<String>)
        ensures
            text::texts(r@).no_duplicates(),
            forall|k: Seq<char>| text::texts(r@).contains(k) <==> #[trigger] self@.contains_key(k),
    {
        map_keys(&self.map)
    }
}

/// A registry is consistent exactly when every sandbox stands under its own id and
/// runs no more commands at once than it may, and an empty one knows no id.
pub proof fn what_consistency_is(m: Map<Seq<char>, SandboxView>, k: Seq<char>)
    ensures
        consistent(m) && m.contains_key(k) ==> m[k].id == k && m[k].active_execs
            <= m[k].max_concurrent_execs,
        (forall|j: Seq<char>| #[trigger]
            m.contains_key(j) ==> m[j].id == j && m[j].active_execs <= m[j].max_concurrent_execs)
            ==> consistent(m),
        !no_sandboxes().contains_key(k),
{
}

/// Every sandbox that is entered is found under its id, as it was entered, until it is
/// removed or entered anew; what is found or removed under another id is not touched
/// by that.
pub proof fn what_is_entered_is_found(
    sandboxes: &mut Registry,
    s: Sandbox,
    after: &Registry,
    id: &str,
    r: Option<Sandbox>,
)
    requires
        call_ensures(Registry::put, (sandboxes, s), ()),
        after@ == final(sandboxes)@,
        call_ensures(Registry::get, (after, id), r),
    ensures
        id@ == s.id@ ==> r is Some && r->0@ == s@,
        id@ != s.id@ ==> (r is Some <==> old(sandboxes)@.contains_key(id@)),
        id@ != s.id@ && r is Some ==> r->0@ == old(sandboxes)@[id@],
{
}

/// What is removed is handed out as it was, and nothing else is touched.
pub proof fn what_is_removed_is_gone(
    sandboxes: &mut Registry,
    id: &str,
    r: Option<Sandbox>,
    after: &Registry,
    other: &str,
    found: Option<Sandbox>,
)
    requires
        call_ensures(Registry::remove, (sandboxes, id), r),
        after@ == final(sandboxes)@,
        call_ensures(Registry::get, (after, other), found),
    ensures
        r is Some <==> old(sandboxes)@.contains_key(id@),
        r is Some ==> r->0@ == old(sandboxes)@[id@],
        found is Some <==> other@ != id@ && old(sandboxes)@.contains_key(other@),
        found is Some ==> found->0@ == old(sandboxes)@[other@],
{
}

} // verus!
