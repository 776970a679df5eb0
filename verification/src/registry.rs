//! The lease registry: which coins are out with an in-flight request.
//!
//! The service keeps one record per leased coin — the queue-delivery handle
//! to settle later and the instant the lease began — keyed by the coin's hex
//! text.  The map must be shared by every request task, so it is dashmap's
//! concurrent `DashMap`; the declarations here give its operations the
//! contracts of a plain map, and everything above them is verified against
//! those contracts.

use vstd::prelude::*;

verus! {

#[verifier::external_type_specification]
#[verifier::external_body]
#[verifier::reject_recursive_types(K)]
#[verifier::reject_recursive_types(V)]
#[verifier::reject_recursive_types(S)]
pub struct ExDashMap<K, V, S>(dashmap::DashMap<K, V, S>);

/// What a leased coin's record holds: the queue-delivery handle to ack or
/// nack on settlement, and the instant the lease began.
#[derive(Clone, Copy, Debug, PartialEq, Eq, Structural)]
pub struct LeaseInfo {
    pub handle: u64,
    pub leased_at: u64,
}

/// The entries a registry map holds, as a mathematical map from key text to
/// lease record.
pub uninterp spec fn dashmap_model(m: &dashmap::DashMap<Vec<u8>, LeaseInfo>) -> Map<
    Seq<u8>,
    LeaseInfo,
>;

/// The model of a registry that holds no leases.
pub open spec fn empty_registry() -> Map<Seq<u8>, LeaseInfo> {
    Map::empty()
}

/// The in-memory ledger of live leases.
pub struct LeaseRegistry {
    pub map: dashmap::DashMap<Vec<u8>, LeaseInfo>,
}

impl View for LeaseRegistry {
    type V = Map<Seq<u8>, LeaseInfo>;

    open spec fn view(&self) -> Map<Seq<u8>, LeaseInfo> {
        dashmap_model(&self.map)
    }
}

impl LeaseRegistry {
    /// Relies on `DashMap::new`: the fresh map holds no entries.
    #[verifier::external_body]
    pub fn new() -> (r: LeaseRegistry)
        ensures
            dashmap_model(&r.map) == empty_registry(),
            r@ == empty_registry(),
    {
        LeaseRegistry { map: dashmap::DashMap::new() }
    }

    /// Relies on `DashMap::contains_key`: whether an entry with this key
    /// exists.
    #[verifier::external_body]
    pub fn contains(&self, key: &Vec<u8>) -> (r: bool)
        ensures
            r == dashmap_model(&self.map).dom().contains(key@),
    {
        self.map.contains_key(key)
    }

    /// Relies on `DashMap::len`: the number of entries.
    #[verifier::external_body]
    pub fn len(&self) -> (r: usize)
        ensures
            r == dashmap_model(&self.map).dom().len(),
    {
        self.map.len()
    }

    /// Relies on `DashMap::insert`: the map gains (or replaces) this entry
    /// and hands back the value it held before, if any.
    #[verifier::external_body]
    pub fn insert(&mut self, key: Vec<u8>, info: LeaseInfo) -> (r: Option<LeaseInfo>)
        ensures
            dashmap_model(&final(self).map) == dashmap_model(&old(self).map).insert(key@, info),
            match r {
                Some(prev) => dashmap_model(&old(self).map).dom().contains(key@) && prev
                    == dashmap_model(&old(self).map)[key@],
                None => !dashmap_model(&old(self).map).dom().contains(key@),
            },
    {
        self.map.insert(key, info)
    }

    /// Relies on `DashMap::remove`: the entry leaves the map and comes back,
    /// or the map is unchanged when no entry has this key.
    #[verifier::external_body]
    pub fn remove(&mut self, key: &Vec<u8>) -> (r: Option<LeaseInfo>)
        ensures
            match r {
                Some(info) => dashmap_model(&old(self).map).dom().contains(key@) && info
                    == dashmap_model(&old(self).map)[key@] && dashmap_model(&final(self).map)
                    == dashmap_model(&old(self).map).remove(key@),
                None => !dashmap_model(&old(self).map).dom().contains(key@) && dashmap_model(
                    &final(self).map,
                ) == dashmap_model(&old(self).map),
            },
    {
        match self.map.remove(key) {
            Some((_, info)) => Some(info),
            None => None,
        }
    }

    /// Relies on `DashMap::iter`: every entry is yielded exactly once, in no
    /// particular order.
    #[verifier::external_body]
    pub fn entries(&self) -> (r: Vec<(Vec<u8>, LeaseInfo)>)
        ensures
            forall|i: int|
                0 <= i < r@.len() ==> #[trigger] dashmap_model(&self.map).dom().contains(r@[i].0@)
                    && dashmap_model(&self.map)[r@[i].0@] == r@[i].1,
            forall|k: Seq<u8>|
                dashmap_model(&self.map).dom().contains(k) ==> exists|i: int|
                    0 <= i < r@.len() && #[trigger] r@[i].0@ == k,
            forall|i: int, j: int| 0 <= i < j < r@.len() ==> r@[i].0@ != r@[j].0@,
    {
        self.map.iter().map(|entry| (entry.key().clone(), *entry.value())).collect()
    }
}

} // verus!
