//! The gas pool: leasing, returning, retiring and reclaiming coins.
//!
//! The pool turns queue deliveries into leases and keeps the ledger of live
//! leases.  Dequeueing, acking and nacking are the surrounding process's
//! work; the pool makes every decision: whether a delivery may become a lease
//! (never while the same coin is already out), which delivery handle to nack
//! when a coin returns, which to ack when it retires, and which stalled
//! leases a sweep must reclaim.

use vstd::prelude::*;
use crate::coin::{spec_id_of_text, spec_id_text, CoinId};
use crate::codec::{spec_decode_record, NewCoinObject};
use crate::errors::Error;
use crate::registry::{empty_registry, LeaseInfo, LeaseRegistry};

verus! {

/// One lease ledger state: coin hex text to lease record.
pub type LeaseMap = Map<Seq<u8>, LeaseInfo>;

/// What one delivery does to a ledger, and what the caller gets: the new
/// ledger and either the leased coin's bytes or the error.  A record that
/// does not decode is refused; a coin already out is an equivocation; a
/// malformed identifier is refused; otherwise the lease is recorded.
pub open spec fn lease_outcome(m: LeaseMap, data: Seq<u8>, handle: u64, now: u64) -> (
    LeaseMap,
    Result<Seq<u8>, Error>,
) {
    match spec_decode_record(data) {
        None => (m, Err(Error::Decode)),
        Some(text) => {
            if m.dom().contains(text) {
                (m, Err(Error::Equivocation))
            } else {
                match spec_id_of_text(text) {
                    None => (m, Err(Error::Decode)),
                    Some(id) => (
                        m.insert(text, LeaseInfo { handle, leased_at: now }),
                        Ok(id),
                    ),
                }
            }
        },
    }
}

/// What settling a coin (return or retire) does to a ledger: the lease
/// leaves, and its delivery handle comes back to be nacked or acked.
pub open spec fn release_outcome(m: LeaseMap, text: Seq<u8>) -> (LeaseMap, Result<u64, Error>) {
    if m.dom().contains(text) {
        (m.remove(text), Ok(m[text].handle))
    } else {
        (m, Err(Error::LeaseNotFound))
    }
}

/// A lease this old at instant `now` has stalled and must be reclaimed.
pub open spec fn is_stale(info: LeaseInfo, now: u64, ttl: u64) -> bool {
    info.leased_at + ttl < now
}

/// The ledger after a sweep: exactly the leases that had not stalled.
pub open spec fn swept(m: LeaseMap, now: u64, ttl: u64) -> LeaseMap {
    Map::new(
        |k: Seq<u8>| m.dom().contains(k) && !is_stale(m[k], now, ttl),
        |k: Seq<u8>| m[k],
    )
}

/// Whether `h` is the delivery handle of some lease in `m` that has
/// stalled by instant `now`.
pub open spec fn handle_of_stale(m: LeaseMap, now: u64, ttl: u64, h: u64) -> bool {
    exists|k: Seq<u8>|
        #[trigger] m.dom().contains(k) && is_stale(m[k], now, ttl) && m[k].handle == h
}

/// The distributed pool of sponsor coins, as one process sees it: the ledger
/// of coins currently out with a request.  The durable queue that holds the
/// waiting coins lives outside; its deliveries come in as arguments.
pub struct GasPool {
    registry: LeaseRegistry,
}

impl View for GasPool {
    type V = LeaseMap;

    closed spec fn view(&self) -> LeaseMap {
        self.registry@
    }
}

impl GasPool {
    /// The ledger only ever holds finitely many leases.
    pub open spec fn inv(&self) -> bool {
        self@.dom().finite()
    }

    pub fn new() -> (r: GasPool)
        ensures
            r@ == empty_registry(),
            r.inv(),
    {
        GasPool { registry: LeaseRegistry::new() }
    }

    /// How many coins are currently out.
    pub fn leased_count(&self) -> (r: usize)
        ensures
            r == self@.dom().len(),
    {
        self.registry.len()
    }

    /// Turns one queue delivery into a lease: decodes the record, refuses a
    /// coin that is already out, records the lease and hands back the coin's
    /// identifier.  `delivery` is the record bytes and the delivery handle;
    /// `None` means the queue was empty.  The caller then fetches the coin's
    /// on-chain reference; if that fetch fails the lease deliberately stays,
    /// for the sweeper to reclaim.
    pub fn gas_object(&mut self, delivery: Option<(Vec<u8>, u64)>, now: u64) -> (r: Result<
        CoinId,
        Error,
    >)
        requires
            old(self).inv(),
        ensures
            final(self).inv(),
            match delivery {
                None => r matches Err(e) && e == Error::PoolEmpty && final(self)@ == old(self)@,
                Some(d) => final(self)@ == lease_outcome(old(self)@, d.0@, d.1, now).0 && (match r {
                    Ok(id) => (lease_outcome(old(self)@, d.0@, d.1, now).1 matches Ok(b) && b
                        == id.bytes@) && id.wf(),
                    Err(e) => (lease_outcome(old(self)@, d.0@, d.1, now).1 matches Err(e2) && e2
                        == e),
                }),
            },
    {
        let (data, handle) = match delivery {
            None => {
                return Err(Error::PoolEmpty);
            },
            Some(d) => d,
        };
        let record = match NewCoinObject::decode(&data) {
            Ok(rec) => rec,
            Err(e) => {
                return Err(e);
            },
        };
        if self.registry.contains(&record.id) {
            return Err(Error::Equivocation);
        }
        let id = match CoinId::from_hex_text(&record.id) {
            Some(id) => id,
            None => {
                return Err(Error::Decode);
            },
        };
        let _ = self.registry.insert(record.id, LeaseInfo { handle, leased_at: now });
        Ok(id)
    }

    /// Returns a still-valuable coin to the pool: the lease leaves the ledger
    /// and the caller nacks the returned handle, which re-queues the coin
    /// after the broker's cool-down.
    pub fn return_gas_object(&mut self, id: &CoinId) -> (r: Result<u64, Error>)
        requires
            old(self).inv(),
        ensures
            final(self).inv(),
            final(self)@ == release_outcome(old(self)@, spec_id_text(id.bytes@)).0,
            r == release_outcome(old(self)@, spec_id_text(id.bytes@)).1,
    {
        let key = id.to_hex_text();
        match self.registry.remove(&key) {
            Some(info) => Ok(info.handle),
            None => Err(Error::LeaseNotFound),
        }
    }

    /// Retires a depleted coin: the lease leaves the ledger and the caller
    /// acks the returned handle, removing the coin from the queue for good.
    /// The caller must first delete the coin's store key ([`CoinId::gas_key`])
    /// and call this only when that delete succeeded, so a failure never
    /// leaves the store claiming a coin the queue no longer has.
    pub fn remove_gas_object(&mut self, id: &CoinId) -> (r: Result<u64, Error>)
        requires
            old(self).inv(),
        ensures
            final(self).inv(),
            final(self)@ == release_outcome(old(self)@, spec_id_text(id.bytes@)).0,
            r == release_outcome(old(self)@, spec_id_text(id.bytes@)).1,
    {
        let key = id.to_hex_text();
        match self.registry.remove(&key) {
            Some(info) => Ok(info.handle),
            None => Err(Error::LeaseNotFound),
        }
    }

    /// Reclaims every stalled lease: each lease older than `ttl` at instant
    /// `now` leaves the ledger, and its delivery handle comes back for the
    /// caller to nack, which re-queues the coin.
    #[verifier::rlimit(50)]
    pub fn sweep_stalled(&mut self, now: u64, ttl: u64) -> (r: Vec<u64>)
        requires
            old(self).inv(),
        ensures
            final(self).inv(),
            final(self)@ == swept(old(self)@, now, ttl),
            forall|i: int|
                0 <= i < r@.len() ==> handle_of_stale(old(self)@, now, ttl, #[trigger] r@[i]),
            forall|k: Seq<u8>|
                old(self)@.dom().contains(k) && is_stale(#[trigger] old(self)@[k], now, ttl)
                    ==> exists|i: int| 0 <= i < r@.len() && r@[i] == old(self)@[k].handle,
    {
        let entries = self.registry.entries();
        let ghost m0 = self@;
        let mut handles: Vec<u64> = Vec::new();
        let n = entries.len();
        let mut i: usize = 0;
        while i < n
            invariant
                self.inv(),
                n == entries@.len(),
                i <= n,
                forall|j: int|
                    0 <= j < n ==> #[trigger] m0.dom().contains(entries@[j].0@) && m0[entries@[j].0@]
                        == entries@[j].1,
                forall|k: Seq<u8>|
                    m0.dom().contains(k) ==> exists|j: int|
                        0 <= j < n && #[trigger] entries@[j].0@ == k,
                forall|j: int, l: int| 0 <= j < l < n ==> entries@[j].0@ != entries@[l].0@,
                forall|k: Seq<u8>|
                    #[trigger] self@.dom().contains(k) <==> m0.dom().contains(k) && !(exists|j: int|
                        0 <= j < i && #[trigger] entries@[j].0@ == k && is_stale(
                            entries@[j].1,
                            now,
                            ttl,
                        )),
                forall|k: Seq<u8>| self@.dom().contains(k) ==> #[trigger] self@[k] == m0[k],
                forall|j: int|
                    0 <= j < handles@.len() ==> handle_of_stale(m0, now, ttl, #[trigger] handles@[j]),
                forall|j: int|
                    0 <= j < i && is_stale(#[trigger] entries@[j].1, now, ttl) ==> exists|l: int|
                        0 <= l < handles@.len() && handles@[l] == entries@[j].1.handle,
            decreases n - i,
        {
            let ghost mid = self@;
            let pair = &entries[i];
            let info = pair.1;
            if info.leased_at <= now && now - info.leased_at > ttl {
                let _ = self.registry.remove(&pair.0);
                let ghost prev = handles@;
                handles.push(info.handle);
                proof {
                    let ghost k = entries@[i as int].0@;
                    assert(m0.dom().contains(k) && m0[k] == entries@[i as int].1);
                    assert(is_stale(m0[k], now, ttl));
                    lemma_handles_from_stale(m0, prev, handles@, k, now, ttl);
                    lemma_stale_all_collected(entries@, i as int, prev, handles@, now, ttl);
                }
            }
            proof {
                lemma_sweep_step(m0, mid, self@, entries@, i as int, now, ttl);
            }
            i = i + 1;
        }
        proof {
            assert forall|k: Seq<u8>|
                m0.dom().contains(k) && is_stale(m0[k], now, ttl) implies exists|l: int|
                0 <= l < handles@.len() && handles@[l] == m0[k].handle by {
                let j = choose|j: int| 0 <= j < n && #[trigger] entries@[j].0@ == k;
                assert(is_stale(entries@[j].1, now, ttl));
            };
            assert(self@ =~= swept(m0, now, ttl));
        }
        handles
    }
}

/// The ledger left after a run of deliveries, each fed to [`lease_outcome`]
/// in order.
pub open spec fn lease_trace_map(m: LeaseMap, events: Seq<(Seq<u8>, u64, u64)>) -> LeaseMap
    decreases events.len(),
{
    if events.len() == 0 {
        m
    } else {
        lease_outcome(
            lease_trace_map(m, events.drop_last()),
            events.last().0,
            events.last().1,
            events.last().2,
        ).0
    }
}

/// The leases a run of deliveries granted, in order: the coin's hex text and
/// its identifier bytes, one pair per delivery that succeeded.
pub open spec fn lease_trace_grants(m: LeaseMap, events: Seq<(Seq<u8>, u64, u64)>) -> Seq<
    (Seq<u8>, Seq<u8>),
>
    decreases events.len(),
{
    if events.len() == 0 {
        Seq::empty()
    } else {
        let prefix = lease_trace_grants(m, events.drop_last());
        let pre = lease_trace_map(m, events.drop_last());
        let e = events.last();
        match lease_outcome(pre, e.0, e.1, e.2).1 {
            Ok(id) => prefix.push((spec_decode_record(e.0).unwrap(), id)),
            Err(_) => prefix,
        }
    }
}

/// Every granted lease stands in the ledger afterwards, under its own text,
/// and its text names exactly its identifier.
pub proof fn lemma_grants_in_ledger(m: LeaseMap, events: Seq<(Seq<u8>, u64, u64)>)
    ensures
        forall|i: int|
            0 <= i < lease_trace_grants(m, events).len() ==> lease_trace_map(
                m,
                events,
            ).dom().contains(#[trigger] lease_trace_grants(m, events)[i].0) && spec_id_of_text(
                lease_trace_grants(m, events)[i].0,
            ) == Some(lease_trace_grants(m, events)[i].1),
    decreases events.len(),
{
    if events.len() > 0 {
        lemma_grants_in_ledger(m, events.drop_last());
    }
}

/// However a run of concurrent requests interleaves, no two of the leases it
/// grants name the same coin: the ledger admits each coin text once while it
/// is out, and a text names one identifier.
pub proof fn lemma_no_double_lease(m: LeaseMap, events: Seq<(Seq<u8>, u64, u64)>)
    ensures
        forall|i: int, j: int|
            0 <= i < j < lease_trace_grants(m, events).len() ==> #[trigger] lease_trace_grants(
                m,
                events,
            )[i].1 != #[trigger] lease_trace_grants(m, events)[j].1,
    decreases events.len(),
{
    if events.len() > 0 {
        let prefix_events = events.drop_last();
        let prefix = lease_trace_grants(m, prefix_events);
        let pre = lease_trace_map(m, prefix_events);
        let e = events.last();
        let grants = lease_trace_grants(m, events);
        lemma_no_double_lease(m, prefix_events);
        lemma_grants_in_ledger(m, prefix_events);
        assert forall|i: int, j: int| 0 <= i < j < grants.len() implies #[trigger] grants[i].1
            != #[trigger] grants[j].1 by {
            if j < prefix.len() {
                assert(grants[i].1 == prefix[i].1 && grants[j].1 == prefix[j].1);
            } else {
                let res = lease_outcome(pre, e.0, e.1, e.2).1;
                assert(res is Ok);
                let text = spec_decode_record(e.0).unwrap();
                assert(!pre.dom().contains(text));
                assert(pre.dom().contains(prefix[i].0));
                assert(grants[i] == prefix[i] && grants[j] == (text, res.unwrap()));
                if grants[i].1 == grants[j].1 {
                    assert(spec_id_of_text(prefix[i].0) == Some(prefix[i].1));
                    assert(spec_id_of_text(text) == Some(res.unwrap()));
                    crate::coin::lemma_id_text_injective(prefix[i].0, text);
                    assert(false);
                }
            }
        }
    }
}

/// A lease settles at most once: after one return or retirement of a coin —
/// successful or not — a second attempt on the same coin reports the lease
/// missing, so its queue delivery is never both acked and nacked.
pub proof fn lemma_settle_at_most_once(m: LeaseMap, text: Seq<u8>)
    ensures
        release_outcome(release_outcome(m, text).0, text).1 == Err::<u64, Error>(
            Error::LeaseNotFound,
        ),
{
}

/// One sweep is enough: a lease that has stalled by `now` is gone from the
/// swept ledger, every live lease in the swept ledger is fresh, and no fresh
/// lease is touched.
pub proof fn lemma_sweep_clears(m: LeaseMap, now: u64, ttl: u64)
    ensures
        forall|k: Seq<u8>|
            m.dom().contains(k) && is_stale(#[trigger] m[k], now, ttl) ==> !swept(
                m,
                now,
                ttl,
            ).dom().contains(k),
        forall|k: Seq<u8>|
            m.dom().contains(k) && !is_stale(#[trigger] m[k], now, ttl) ==> swept(
                m,
                now,
                ttl,
            ).dom().contains(k) && swept(m, now, ttl)[k] == m[k],
        forall|k: Seq<u8>|
            #[trigger] swept(m, now, ttl).dom().contains(k) ==> !is_stale(
                swept(m, now, ttl)[k],
                now,
                ttl,
            ),
{
}

/// One step of the sweep: handling entry `i` (removing it when stalled,
/// leaving it otherwise) turns a ledger pruned of the stalled entries before
/// `i` into one pruned of the stalled entries before `i + 1`.
proof fn lemma_sweep_step(
    m0: LeaseMap,
    mid: LeaseMap,
    post: LeaseMap,
    entries: Seq<(Vec<u8>, LeaseInfo)>,
    i: int,
    now: u64,
    ttl: u64,
)
    requires
        0 <= i < entries.len(),
        forall|j: int|
            0 <= j < entries.len() ==> #[trigger] m0.dom().contains(entries[j].0@)
                && m0[entries[j].0@] == entries[j].1,
        forall|k: Seq<u8>|
            #[trigger] mid.dom().contains(k) <==> m0.dom().contains(k) && !(exists|j: int|
                0 <= j < i && #[trigger] entries[j].0@ == k && is_stale(entries[j].1, now, ttl)),
        forall|k: Seq<u8>| mid.dom().contains(k) ==> #[trigger] mid[k] == m0[k],
        post == (if is_stale(entries[i].1, now, ttl) {
            mid.remove(entries[i].0@)
        } else {
            mid
        }),
    ensures
        forall|k: Seq<u8>|
            #[trigger] post.dom().contains(k) <==> m0.dom().contains(k) && !(exists|j: int|
                0 <= j < i + 1 && #[trigger] entries[j].0@ == k && is_stale(
                    entries[j].1,
                    now,
                    ttl,
                )),
        forall|k: Seq<u8>| post.dom().contains(k) ==> #[trigger] post[k] == m0[k],
{
    let ki = entries[i].0@;
    let st = is_stale(entries[i].1, now, ttl);
    assert forall|k: Seq<u8>| #[trigger] post.dom().contains(k) <==> m0.dom().contains(k) && !(
    exists|j: int|
        0 <= j < i + 1 && #[trigger] entries[j].0@ == k && is_stale(
            entries[j].1,
            now,
            ttl,
        )) by {
        if post.dom().contains(k) {
            assert(mid.dom().contains(k));
            if exists|j: int|
                0 <= j < i + 1 && #[trigger] entries[j].0@ == k && is_stale(
                    entries[j].1,
                    now,
                    ttl,
                ) {
                let j = choose|j: int|
                    0 <= j < i + 1 && #[trigger] entries[j].0@ == k && is_stale(
                        entries[j].1,
                        now,
                        ttl,
                    );
                if j < i {
                    assert(!mid.dom().contains(k));
                } else {
                    assert(k == ki && st);
                    assert(!post.dom().contains(k));
                }
            }
        } else {
            if m0.dom().contains(k) && !(exists|j: int|
                0 <= j < i + 1 && #[trigger] entries[j].0@ == k && is_stale(
                    entries[j].1,
                    now,
                    ttl,
                )) {
                assert(forall|j: int|
                    0 <= j < i && #[trigger] entries[j].0@ == k ==> !is_stale(
                        entries[j].1,
                        now,
                        ttl,
                    ));
                assert(mid.dom().contains(k));
                if st && k == ki {
                    assert(entries[i].0@ == k && is_stale(entries[i].1, now, ttl));
                    assert(false);
                }
                assert(post.dom().contains(k));
            }
        }
    }
}

/// Pushing the handle of one more stalled lease keeps every collected handle
/// the handle of some stalled lease.
proof fn lemma_handles_from_stale(
    m0: LeaseMap,
    prev: Seq<u64>,
    cur: Seq<u64>,
    k: Seq<u8>,
    now: u64,
    ttl: u64,
)
    requires
        m0.dom().contains(k),
        is_stale(m0[k], now, ttl),
        cur == prev.push(m0[k].handle),
        forall|j: int| 0 <= j < prev.len() ==> handle_of_stale(m0, now, ttl, #[trigger] prev[j]),
    ensures
        forall|j: int| 0 <= j < cur.len() ==> handle_of_stale(m0, now, ttl, #[trigger] cur[j]),
{
    assert forall|j: int| 0 <= j < cur.len() implies handle_of_stale(
        m0,
        now,
        ttl,
        #[trigger] cur[j],
    ) by {
        if j < prev.len() {
            assert(cur[j] == prev[j]);
            assert(handle_of_stale(m0, now, ttl, prev[j]));
        } else {
            assert(cur[j] == m0[k].handle);
            assert(m0.dom().contains(k) && is_stale(m0[k], now, ttl) && m0[k].handle == cur[j]);
        }
    }
}

/// Pushing the handle of entry `i` extends handle coverage from the stalled
/// entries before `i` to those before `i + 1`.
proof fn lemma_stale_all_collected(
    entries: Seq<(Vec<u8>, LeaseInfo)>,
    i: int,
    prev: Seq<u64>,
    cur: Seq<u64>,
    now: u64,
    ttl: u64,
)
    requires
        0 <= i < entries.len(),
        cur == prev.push(entries[i].1.handle),
        forall|j: int|
            0 <= j < i && is_stale(#[trigger] entries[j].1, now, ttl) ==> exists|l: int|
                0 <= l < prev.len() && prev[l] == entries[j].1.handle,
    ensures
        forall|j: int|
            0 <= j < i + 1 && is_stale(#[trigger] entries[j].1, now, ttl) ==> exists|l: int|
                0 <= l < cur.len() && cur[l] == entries[j].1.handle,
{
    assert forall|j: int| 0 <= j < i + 1 && is_stale(#[trigger] entries[j].1, now, ttl) implies
        exists|l: int| 0 <= l < cur.len() && cur[l] == entries[j].1.handle by {
        if j < i {
            let l = choose|l: int| 0 <= l < prev.len() && prev[l] == entries[j].1.handle;
            assert(cur[l] == entries[j].1.handle);
        } else {
            assert(cur[cur.len() - 1] == entries[j].1.handle);
        }
    }
}

} // verus!
