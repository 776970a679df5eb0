//! The coin manager: planning the merge-and-split refill of the pool.
//!
//! When the pool falls to its low watermark, the manager merges the
//! sponsor's loose coins into the master coin and splits fresh pool coins
//! off it.  Fetching the sponsor's coins, taking the distributed lock,
//! reading and writing the stored master, and executing the transaction are
//! the surrounding process's work; every choice — which coin is the master,
//! which pays for the rebalance, which are merged away, how many new coins
//! to cut — is made and proved here.

use vstd::prelude::*;
use vstd::multiset::Multiset;
use vstd::seq_lib::lemma_multiset_commutative;
use crate::coin::{Address, CoinId, CoinRef};
use crate::errors::Error;

verus! {

/// What one rebalance transaction may spend on gas, in fee units.  Generous
/// because the first run splits into many coins; later runs cost less
/// thanks to merge rebates.
pub const GAS_BUDGET: u64 = 150_000_000;

/// One sponsor-owned coin as the chain reports it: its reference and its
/// balance.
#[derive(Debug)]
pub struct CoinInfo {
    pub id: CoinId,
    pub version: u64,
    pub digest: Vec<u8>,
    pub balance: u64,
}

impl CoinInfo {
    /// The on-chain reference of this coin.
    pub fn object_ref(&self) -> (r: CoinRef)
        ensures
            r.id.bytes@ == self.id.bytes@,
            r.version == self.version,
            r.digest@ == self.digest@,
    {
        let digest = self.digest.clone();
        assert(digest@ =~= self.digest@);
        CoinRef { id: self.id.duplicate(), version: self.version, digest }
    }

    /// A second handle on the same coin description.
    pub fn duplicate(&self) -> (r: CoinInfo)
        ensures
            r.id.bytes@ == self.id.bytes@,
            r.version == self.version,
            r.digest@ == self.digest@,
            r.balance == self.balance,
    {
        let digest = self.digest.clone();
        assert(digest@ =~= self.digest@);
        CoinInfo {
            id: self.id.duplicate(),
            version: self.version,
            digest,
            balance: self.balance,
        }
    }
}

/// Balances never rise from left to right.
pub open spec fn sorted_desc(s: Seq<CoinInfo>) -> bool {
    forall|i: int, j: int| 0 <= i < j < s.len() ==> s[i].balance >= s[j].balance
}

/// Inserting an element anywhere adds exactly it to the sequence's
/// multiset.
proof fn lemma_insert_to_multiset(s: Seq<CoinInfo>, i: int, c: CoinInfo)
    requires
        0 <= i <= s.len(),
    ensures
        s.insert(i, c).to_multiset() =~= s.to_multiset().insert(c),
{
    broadcast use vstd::seq_lib::group_to_multiset_ensures;

    assert(s.insert(i, c) =~= s.take(i) + (seq![c] + s.skip(i)));
    assert(s =~= s.take(i) + s.skip(i));
    lemma_multiset_commutative(s.take(i), seq![c] + s.skip(i));
    lemma_multiset_commutative(seq![c], s.skip(i));
    lemma_multiset_commutative(s.take(i), s.skip(i));
    assert(seq![c] =~= Seq::<CoinInfo>::empty().push(c));
    assert(Seq::<CoinInfo>::empty().push(c).to_multiset() =~= Multiset::<
        CoinInfo,
    >::empty().insert(c));
}

/// Sorts the sponsor's coins by balance, largest first: the order the
/// master election and the gas-payment scan read.
pub fn sort_coins_desc(coins: Vec<CoinInfo>) -> (r: Vec<CoinInfo>)
    ensures
        sorted_desc(r@),
        r@.to_multiset() == coins@.to_multiset(),
{
    broadcast use vstd::seq_lib::group_to_multiset_ensures;

    let mut rest = coins;
    let mut out: Vec<CoinInfo> = Vec::new();
    assert(out@.to_multiset().add(rest@.to_multiset()) =~= rest@.to_multiset());
    while rest.len() > 0
        invariant
            sorted_desc(out@),
            out@.to_multiset().add(rest@.to_multiset()) == coins@.to_multiset(),
        decreases rest.len(),
    {
        let ghost rest0 = rest@;
        let c = rest.pop().unwrap();
        proof {
            rest@.to_multiset_ensures();
            assert(rest0 =~= rest@.push(c));
            assert(rest@.push(c).to_multiset() =~= rest@.to_multiset().insert(c));
            assert(rest0.to_multiset() == rest@.to_multiset().insert(c));
        }
        let mut p: usize = 0;
        while p < out.len() && out[p].balance >= c.balance
            invariant
                p <= out@.len(),
                forall|q: int| 0 <= q < p ==> out@[q].balance >= c.balance,
            decreases out@.len() - p,
        {
            p = p + 1;
        }
        let ghost out0 = out@;
        out.insert(p, c);
        proof {
            lemma_insert_to_multiset(out0, p as int, c);
            assert(out@.to_multiset().add(rest@.to_multiset()) =~= coins@.to_multiset());
            assert forall|i: int, j: int| 0 <= i < j < out@.len() implies out@[i].balance
                >= out@[j].balance by {
                assert(out@ == out0.insert(p as int, c));
            };
        }
    }
    proof {
        assert(rest@ =~= Seq::<CoinInfo>::empty());
        assert(rest@.to_multiset() =~= Multiset::<CoinInfo>::empty());
        assert(out@.to_multiset() =~= coins@.to_multiset());
    }
    out
}

/// The position, scanning from the smallest balance upward, of the first
/// coin rich enough to pay for the rebalance itself.
pub fn get_gas_payment_coin_index(input_coins: &Vec<CoinInfo>) -> (r: Result<usize, Error>)
    ensures
        match r {
            Ok(i) => i < input_coins@.len() && input_coins@[i as int].balance >= GAS_BUDGET
                && (forall|j: int|
                i < j < input_coins@.len() ==> input_coins@[j].balance < GAS_BUDGET),
            Err(e) => e == Error::Rebalance && (forall|j: int|
                0 <= j < input_coins@.len() ==> input_coins@[j].balance < GAS_BUDGET),
        },
{
    let mut i = input_coins.len();
    while i > 0
        invariant
            i <= input_coins@.len(),
            forall|j: int| i <= j < input_coins@.len() ==> input_coins@[j].balance < GAS_BUDGET,
        decreases i,
    {
        i = i - 1;
        if input_coins[i].balance >= GAS_BUDGET {
            return Ok(i);
        }
    }
    Err(Error::Rebalance)
}

/// Compares two byte strings by content.
pub fn bytes_eq(a: &Vec<u8>, b: &Vec<u8>) -> (r: bool)
    ensures
        r == (a@ == b@),
{
    if a.len() != b.len() {
        return false;
    }
    let n = a.len();
    let mut i: usize = 0;
    while i < n
        invariant
            n == a@.len() == b@.len(),
            i <= n,
            forall|j: int| 0 <= j < i ==> a@[j] == b@[j],
        decreases n - i,
    {
        if a[i] != b[i] {
            return false;
        }
        i = i + 1;
    }
    proof {
        assert(a@ =~= b@);
    }
    true
}

/// `coins` without every coin of the given identifier, in order.
pub open spec fn spec_without_id(coins: Seq<CoinInfo>, id: Seq<u8>) -> Seq<CoinInfo>
    decreases coins.len(),
{
    if coins.len() == 0 {
        Seq::empty()
    } else {
        spec_without_id(coins.drop_last(), id) + (if coins.last().id.bytes@ == id {
            Seq::empty()
        } else {
            seq![coins.last()]
        })
    }
}

/// `coins` without every coin whose hex text is listed, in order.
pub open spec fn spec_excluding(coins: Seq<CoinInfo>, pool_texts: Seq<Seq<u8>>) -> Seq<CoinInfo>
    decreases coins.len(),
{
    if coins.len() == 0 {
        Seq::empty()
    } else {
        spec_excluding(coins.drop_last(), pool_texts) + (if pool_texts.contains(
            crate::coin::spec_id_text(coins.last().id.bytes@),
        ) {
            Seq::empty()
        } else {
            seq![coins.last()]
        })
    }
}

/// The pool list as byte strings.
pub open spec fn spec_pool_texts(pool_texts: Seq<Vec<u8>>) -> Seq<Seq<u8>> {
    pool_texts.map_values(|v: Vec<u8>| v@)
}

/// How many coins still carry any balance.
pub open spec fn spec_nonempty_count(coins: Seq<CoinInfo>) -> int
    decreases coins.len(),
{
    if coins.len() == 0 {
        0
    } else {
        spec_nonempty_count(coins.drop_last()) + (if coins.last().balance > 0 {
            1int
        } else {
            0int
        })
    }
}

/// Dropping one identifier keeps a sequence's multiset up to the matching
/// filter, so the result does not depend on the sequence's order.
proof fn lemma_without_id_multiset(coins: Seq<CoinInfo>, id: Seq<u8>)
    ensures
        spec_without_id(coins, id).to_multiset() == coins.to_multiset().filter(
            |c: CoinInfo| c.id.bytes@ != id,
        ),
    decreases coins.len(),
{
    broadcast use vstd::seq_lib::group_to_multiset_ensures;

    if coins.len() == 0 {
        assert(coins.to_multiset() =~= Multiset::<CoinInfo>::empty());
        assert(spec_without_id(coins, id).to_multiset() =~= coins.to_multiset().filter(
            |c: CoinInfo| c.id.bytes@ != id,
        ));
    } else {
        let prefix = coins.drop_last();
        let c = coins.last();
        lemma_without_id_multiset(prefix, id);
        assert(coins =~= prefix.push(c));
        assert(prefix.push(c).to_multiset() =~= prefix.to_multiset().insert(c));
        if c.id.bytes@ == id {
            assert(spec_without_id(coins, id) =~= spec_without_id(prefix, id));
        } else {
            assert(spec_without_id(coins, id) =~= spec_without_id(prefix, id).push(c));
            assert(spec_without_id(prefix, id).push(c).to_multiset() =~= spec_without_id(
                prefix,
                id,
            ).to_multiset().insert(c));
        }
        assert(spec_without_id(coins, id).to_multiset() =~= coins.to_multiset().filter(
            |c: CoinInfo| c.id.bytes@ != id,
        ));
    }
}

/// Excluding pool coins likewise only filters the multiset.
proof fn lemma_excluding_multiset(coins: Seq<CoinInfo>, pool_texts: Seq<Seq<u8>>)
    ensures
        spec_excluding(coins, pool_texts).to_multiset() == coins.to_multiset().filter(
            |c: CoinInfo| !pool_texts.contains(crate::coin::spec_id_text(c.id.bytes@)),
        ),
    decreases coins.len(),
{
    broadcast use vstd::seq_lib::group_to_multiset_ensures;

    if coins.len() == 0 {
        assert(coins.to_multiset() =~= Multiset::<CoinInfo>::empty());
        assert(spec_excluding(coins, pool_texts).to_multiset() =~= coins.to_multiset().filter(
            |c: CoinInfo| !pool_texts.contains(crate::coin::spec_id_text(c.id.bytes@)),
        ));
    } else {
        let prefix = coins.drop_last();
        let c = coins.last();
        lemma_excluding_multiset(prefix, pool_texts);
        assert(coins =~= prefix.push(c));
        assert(prefix.push(c).to_multiset() =~= prefix.to_multiset().insert(c));
        if pool_texts.contains(crate::coin::spec_id_text(c.id.bytes@)) {
            assert(spec_excluding(coins, pool_texts) =~= spec_excluding(prefix, pool_texts));
        } else {
            assert(spec_excluding(coins, pool_texts) =~= spec_excluding(prefix, pool_texts).push(
                c,
            ));
            assert(spec_excluding(prefix, pool_texts).push(c).to_multiset() =~= spec_excluding(
                prefix,
                pool_texts,
            ).to_multiset().insert(c));
        }
        assert(spec_excluding(coins, pool_texts).to_multiset() =~= coins.to_multiset().filter(
            |c: CoinInfo| !pool_texts.contains(crate::coin::spec_id_text(c.id.bytes@)),
        ));
    }
}

/// Whether `c` stands somewhere in `s`.
pub open spec fn appears(s: Seq<CoinInfo>, c: CoinInfo) -> bool {
    exists|j: int| 0 <= j < s.len() && s[j] == c
}

/// Dropping one identifier from a sorted sequence leaves it sorted, keeps
/// only coins of the sequence, and keeps every coin of another identifier.
proof fn lemma_without_id_sorted(coins: Seq<CoinInfo>, id: Seq<u8>)
    requires
        sorted_desc(coins),
    ensures
        sorted_desc(spec_without_id(coins, id)),
        forall|i: int|
            0 <= i < spec_without_id(coins, id).len() ==> appears(
                coins,
                #[trigger] spec_without_id(coins, id)[i],
            ),
        forall|i: int|
            0 <= i < coins.len() && (#[trigger] coins[i]).id.bytes@ != id ==> appears(
                spec_without_id(coins, id),
                coins[i],
            ),
    decreases coins.len(),
{
    if coins.len() > 0 {
        let prefix = coins.drop_last();
        let c = coins.last();
        assert(sorted_desc(prefix));
        lemma_without_id_sorted(prefix, id);
        let ex = spec_without_id(coins, id);
        let exp = spec_without_id(prefix, id);
        if c.id.bytes@ == id {
            assert(ex =~= exp);
        } else {
            assert(ex =~= exp.push(c));
            assert forall|i: int, j: int| 0 <= i < j < ex.len() implies ex[i].balance
                >= ex[j].balance by {
                if j < exp.len() {
                } else {
                    assert(appears(prefix, exp[i]));
                    let l = choose|l: int| 0 <= l < prefix.len() && prefix[l] == exp[i];
                    assert(prefix[l].balance >= c.balance);
                }
            };
        }
        assert forall|i: int| 0 <= i < ex.len() implies appears(coins, #[trigger] ex[i]) by {
            if i < exp.len() {
                assert(appears(prefix, exp[i]));
                let l = choose|l: int| 0 <= l < prefix.len() && prefix[l] == exp[i];
                assert(coins[l] == ex[i]);
            } else {
                assert(coins[coins.len() - 1] == ex[i]);
            }
        };
        assert forall|i: int|
            0 <= i < coins.len() && (#[trigger] coins[i]).id.bytes@ != id implies appears(
            ex,
            coins[i],
        ) by {
            if i < prefix.len() {
                assert(prefix[i] == coins[i]);
                assert(appears(exp, prefix[i]));
                let j = choose|j: int| 0 <= j < exp.len() && exp[j] == prefix[i];
                assert(ex[j] == coins[i]);
            } else {
                assert(ex[ex.len() - 1] == coins[i]);
            }
        };
    }
}

/// The plan one rebalance follows: merge the inputs into the master, pay
/// with the payment coin, split this many fresh coins of this balance off
/// the master and hand each to the sponsor.
#[derive(Debug)]
pub struct RebalancePlan {
    pub master: CoinInfo,
    pub gas_payment: CoinInfo,
    pub merge_inputs: Vec<CoinInfo>,
    pub new_coin_count: u64,
    pub split_amount: u64,
}

/// One election step at the stored master key: an instance that finds a
/// master keeps it; one that finds none writes its own candidate.
pub open spec fn spec_elect_step(store: Option<Seq<u8>>, candidate: Seq<u8>) -> (
    Option<Seq<u8>>,
    bool,
) {
    match store {
        Some(m) => (Some(m), false),
        None => (Some(candidate), true),
    }
}

/// The stored master after a run of election steps, one per instance, in
/// lock order.
pub open spec fn spec_elect_trace(store: Option<Seq<u8>>, candidates: Seq<Seq<u8>>) -> Option<
    Seq<u8>,
>
    decreases candidates.len(),
{
    if candidates.len() == 0 {
        store
    } else {
        spec_elect_step(spec_elect_trace(store, candidates.drop_last()), candidates.last()).0
    }
}

/// How many of the steps wrote.
pub open spec fn spec_elect_writes(store: Option<Seq<u8>>, candidates: Seq<Seq<u8>>) -> int
    decreases candidates.len(),
{
    if candidates.len() == 0 {
        0
    } else {
        spec_elect_writes(store, candidates.drop_last()) + (if spec_elect_step(
            spec_elect_trace(store, candidates.drop_last()),
            candidates.last(),
        ).1 {
            1int
        } else {
            0int
        })
    }
}

/// `coins` restricted to the given identifier, in order.
pub open spec fn spec_only_id(coins: Seq<CoinInfo>, id: Seq<u8>) -> Seq<CoinInfo>
    decreases coins.len(),
{
    if coins.len() == 0 {
        Seq::empty()
    } else {
        spec_only_id(coins.drop_last(), id) + (if coins.last().id.bytes@ == id {
            seq![coins.last()]
        } else {
            Seq::empty()
        })
    }
}

/// What the partition keeps: every kept coin has another identifier, every
/// matching coin is kept on the other side, and both sides draw from the
/// input.
proof fn lemma_partition_facts(coins: Seq<CoinInfo>, id: Seq<u8>)
    ensures
        forall|i: int|
            0 <= i < spec_without_id(coins, id).len() ==> (#[trigger] spec_without_id(
                coins,
                id,
            )[i]).id.bytes@ != id,
        forall|i: int|
            0 <= i < spec_only_id(coins, id).len() ==> (#[trigger] spec_only_id(
                coins,
                id,
            )[i]).id.bytes@ == id,
        forall|i: int|
            0 <= i < spec_only_id(coins, id).len() ==> appears(
                coins,
                #[trigger] spec_only_id(coins, id)[i],
            ),
        forall|i: int|
            0 <= i < coins.len() && (#[trigger] coins[i]).id.bytes@ == id ==> appears(
                spec_only_id(coins, id),
                coins[i],
            ),
    decreases coins.len(),
{
    if coins.len() > 0 {
        let prefix = coins.drop_last();
        let c = coins.last();
        lemma_partition_facts(prefix, id);
        let on = spec_only_id(coins, id);
        let onp = spec_only_id(prefix, id);
        let ex = spec_without_id(coins, id);
        let exp = spec_without_id(prefix, id);
        if c.id.bytes@ == id {
            assert(on =~= onp.push(c));
            assert(ex =~= exp);
        } else {
            assert(on =~= onp);
            assert(ex =~= exp.push(c));
        }
        assert forall|i: int| 0 <= i < on.len() implies appears(coins, #[trigger] on[i]) by {
            if i < onp.len() {
                assert(appears(prefix, onp[i]));
                let l = choose|l: int| 0 <= l < prefix.len() && prefix[l] == onp[i];
                assert(coins[l] == on[i]);
            } else {
                assert(coins[coins.len() - 1] == on[i]);
            }
        };
        assert forall|i: int|
            0 <= i < coins.len() && (#[trigger] coins[i]).id.bytes@ == id implies appears(
            on,
            coins[i],
        ) by {
            if i < prefix.len() {
                assert(prefix[i] == coins[i]);
                assert(appears(onp, prefix[i]));
                let j = choose|j: int| 0 <= j < onp.len() && onp[j] == prefix[i];
                assert(on[j] == coins[i]);
            } else {
                assert(on[on.len() - 1] == coins[i]);
            }
        };
    }
}

/// Splits the sponsor's coins into those of another identifier and those of
/// the given one, each side in its original order and with its original
/// values.
pub fn partition_by_id(coins: Vec<CoinInfo>, id: &CoinId) -> (r: (Vec<CoinInfo>, Vec<CoinInfo>))
    ensures
        r.0@ == spec_without_id(coins@, id.bytes@),
        r.1@ == spec_only_id(coins@, id.bytes@),
{
    let mut rest = coins;
    let mut kept: Vec<CoinInfo> = Vec::new();
    let mut matched: Vec<CoinInfo> = Vec::new();
    while rest.len() > 0
        invariant
            spec_without_id(coins@, id.bytes@) =~= spec_without_id(rest@, id.bytes@) + kept@,
            spec_only_id(coins@, id.bytes@) =~= spec_only_id(rest@, id.bytes@) + matched@,
        decreases rest.len(),
    {
        let ghost rest0 = rest@;
        let c = rest.pop().unwrap();
        proof {
            assert(rest0 =~= rest@.push(c));
            assert(rest0.drop_last() =~= rest@);
        }
        let ghost kept0 = kept@;
        let ghost matched0 = matched@;
        if bytes_eq(&c.id.bytes, &id.bytes) {
            matched.insert(0, c);
            proof {
                assert(matched@ =~= seq![c] + matched0);
            }
        } else {
            kept.insert(0, c);
            proof {
                assert(kept@ =~= seq![c] + kept0);
            }
        }
    }
    proof {
        assert(rest@ =~= Seq::<CoinInfo>::empty());
        assert(spec_without_id(rest@, id.bytes@) =~= Seq::<CoinInfo>::empty());
        assert(spec_only_id(rest@, id.bytes@) =~= Seq::<CoinInfo>::empty());
        assert(spec_without_id(coins@, id.bytes@) =~= kept@);
        assert(spec_only_id(coins@, id.bytes@) =~= matched@);
    }
    (kept, matched)
}

/// Drops every coin whose hex text stands in the pool list, keeping order
/// and values.
pub fn exclude_pool_coins(coins: Vec<CoinInfo>, pool_texts: &Vec<Vec<u8>>) -> (r: Vec<CoinInfo>)
    ensures
        r@ == spec_excluding(coins@, pool_texts@.map_values(|v: Vec<u8>| v@)),
{
    let ghost texts = pool_texts@.map_values(|v: Vec<u8>| v@);
    let mut rest = coins;
    let mut out: Vec<CoinInfo> = Vec::new();
    while rest.len() > 0
        invariant
            texts == pool_texts@.map_values(|v: Vec<u8>| v@),
            spec_excluding(coins@, texts) =~= spec_excluding(rest@, texts) + out@,
        decreases rest.len(),
    {
        let ghost rest0 = rest@;
        let c = rest.pop().unwrap();
        proof {
            assert(rest0 =~= rest@.push(c));
            assert(rest0.drop_last() =~= rest@);
        }
        let text = c.id.to_hex_text();
        let ghost out0 = out@;
        if !contains_bytes(pool_texts, &text) {
            out.insert(0, c);
            proof {
                assert(out@ =~= seq![c] + out0);
            }
        }
    }
    proof {
        assert(rest@ =~= Seq::<CoinInfo>::empty());
        assert(spec_excluding(rest@, texts) =~= Seq::<CoinInfo>::empty());
        assert(spec_excluding(coins@, texts) =~= out@);
    }
    out
}

/// Whether the list holds a byte string of this content.
pub fn contains_bytes(list: &Vec<Vec<u8>>, x: &Vec<u8>) -> (r: bool)
    ensures
        r == list@.map_values(|v: Vec<u8>| v@).contains(x@),
{
    let ghost texts = list@.map_values(|v: Vec<u8>| v@);
    let n = list.len();
    let mut i: usize = 0;
    while i < n
        invariant
            texts == list@.map_values(|v: Vec<u8>| v@),
            n == list@.len(),
            i <= n,
            forall|j: int| 0 <= j < i ==> texts[j] != x@,
        decreases n - i,
    {
        if bytes_eq(&list[i], x) {
            assert(texts[i as int] == x@);
            return true;
        }
        i = i + 1;
    }
    assert(!texts.contains(x@));
    false
}

/// Whether the coin at position `i` has the largest balance in the list.
pub open spec fn is_largest(coins: Seq<CoinInfo>, i: int) -> bool {
    forall|j: int| 0 <= j < coins.len() ==> coins[j].balance <= coins[i].balance
}

/// The position the election scan settles on among the first `n` coins: the
/// first coin of maximal balance.
pub open spec fn spec_best_index(coins: Seq<CoinInfo>, n: int) -> int
    recommends
        1 <= n <= coins.len(),
    decreases n,
{
    if n <= 1 {
        0
    } else {
        let b = spec_best_index(coins, n - 1);
        if coins[n - 1].balance > coins[b].balance {
            n - 1
        } else {
            b
        }
    }
}

/// The master the election settles on: the stored one when present, else the
/// first largest sponsor coin; nothing when there is no store and no coin.
pub open spec fn spec_elected(stored: Option<CoinId>, coins: Seq<CoinInfo>) -> Option<Seq<u8>> {
    match stored {
        Some(m) => Some(m.bytes@),
        None => if coins.len() == 0 {
            None
        } else {
            Some(coins[spec_best_index(coins, coins.len() as int)].id.bytes@)
        },
    }
}

/// The election scan lands on a valid position that no earlier coin beats.
proof fn lemma_best_index(coins: Seq<CoinInfo>, n: int)
    requires
        1 <= n <= coins.len(),
    ensures
        0 <= spec_best_index(coins, n) < n,
        forall|j: int|
            0 <= j < n ==> (#[trigger] coins[j]).balance <= coins[spec_best_index(
                coins,
                n,
            )].balance,
    decreases n,
{
    if n > 1 {
        lemma_best_index(coins, n - 1);
    }
}

/// The master-coin election step one instance runs while it holds the
/// distributed lock: reuse the stored master when there is one, else pick
/// the largest sponsor coin and report that it must be persisted.
pub fn elect_master(stored: Option<CoinId>, coins: &Vec<CoinInfo>) -> (r: Result<
    (CoinId, bool),
    Error,
>)
    ensures
        r is Ok <==> spec_elected(stored, coins@) is Some,
        match r {
            Ok(p) => spec_elected(stored, coins@) == Some(p.0.bytes@) && (match stored {
                Some(m) => p.0.bytes@ == m.bytes@ && !p.1,
                None => p.1 && (exists|i: int|
                    0 <= i < coins@.len() && (#[trigger] coins@[i]).id.bytes@ == p.0.bytes@
                        && is_largest(coins@, i)),
            }),
            Err(e) => e == Error::Rebalance && stored is None && coins@.len() == 0,
        },
{
    match stored {
        Some(m) => {
            return Ok((m, false));
        },
        None => {},
    }
    if coins.len() == 0 {
        return Err(Error::Rebalance);
    }
    let n = coins.len();
    let mut best: usize = 0;
    let mut i: usize = 1;
    while i < n
        invariant
            n == coins@.len(),
            best < i <= n,
            best == spec_best_index(coins@, i as int),
            forall|j: int| 0 <= j < i ==> coins@[j].balance <= coins@[best as int].balance,
        decreases n - i,
    {
        if coins[i].balance > coins[best].balance {
            best = i;
        }
        i = i + 1;
    }
    let p = &coins[best];
    Ok((p.id.duplicate(), true))
}

/// Master election is unique: however many instances contend, serialized by
/// the lock, starting with no stored master exactly one writes, and the
/// master from then on is the first instance's candidate; with a master
/// already stored nobody writes.
pub proof fn lemma_election_unique(store: Option<Seq<u8>>, candidates: Seq<Seq<u8>>)
    ensures
        store is Some ==> spec_elect_writes(store, candidates) == 0 && spec_elect_trace(
            store,
            candidates,
        ) == store,
        store is None && candidates.len() > 0 ==> spec_elect_writes(store, candidates) == 1
            && spec_elect_trace(store, candidates) == Some(candidates[0]),
    decreases candidates.len(),
{
    if candidates.len() > 0 {
        let prefix = candidates.drop_last();
        lemma_election_unique(store, prefix);
        if store is None {
            if candidates.len() == 1 {
                assert(prefix.len() == 0);
                assert(spec_elect_trace(store, prefix) == store);
                assert(spec_elect_writes(store, prefix) == 0);
                assert(candidates.last() == candidates[0]);
                assert(spec_elect_trace(store, candidates) == Some(candidates[0]));
                assert(spec_elect_writes(store, candidates) == 1);
            } else {
                assert(prefix.len() > 0);
                assert(prefix[0] == candidates[0]);
                assert(spec_elect_trace(store, prefix) == Some(candidates[0]));
                assert(spec_elect_trace(store, candidates) == Some(candidates[0]));
                assert(spec_elect_writes(store, candidates) == 1);
            }
        }
    }
}

/// Whether the list holds a coin of this identifier.
pub open spec fn has_master(coins: Seq<CoinInfo>, master: Seq<u8>) -> bool {
    exists|i: int| 0 <= i < coins.len() && (#[trigger] coins[i]).id.bytes@ == master
}

/// Whether the list holds a coin of another identifier rich enough to pay
/// for the rebalance.
pub open spec fn has_gas_payment(coins: Seq<CoinInfo>, master: Seq<u8>) -> bool {
    exists|i: int|
        0 <= i < coins.len() && (#[trigger] coins[i]).id.bytes@ != master && coins[i].balance
            >= GAS_BUDGET
}

/// Reordering a coin list changes neither its members nor which masters and
/// gas payments it offers.
proof fn lemma_same_coins(s1: Seq<CoinInfo>, s2: Seq<CoinInfo>, m: Seq<u8>)
    requires
        s1.to_multiset() == s2.to_multiset(),
    ensures
        has_master(s1, m) == has_master(s2, m),
        has_gas_payment(s1, m) == has_gas_payment(s2, m),
        forall|c: CoinInfo| #[trigger] appears(s1, c) == appears(s2, c),
{
    broadcast use vstd::seq_lib::group_to_multiset_ensures;

    assert forall|c: CoinInfo| #[trigger] appears(s1, c) == appears(s2, c) by {
        assert(appears(s1, c) == s1.contains(c));
        assert(appears(s2, c) == s2.contains(c));
        assert(s1.contains(c) <==> s1.to_multiset().count(c) > 0);
        assert(s2.contains(c) <==> s2.to_multiset().count(c) > 0);
    }
    assert(has_master(s1, m) == has_master(s2, m)) by {
        if has_master(s1, m) {
            let i = choose|i: int|
                0 <= i < s1.len() && (#[trigger] s1[i]).id.bytes@ == m;
            assert(appears(s1, s1[i]));
            let j = choose|j: int| 0 <= j < s2.len() && s2[j] == s1[i];
            assert((s2[j]).id.bytes@ == m);
        }
        if has_master(s2, m) {
            let i = choose|i: int|
                0 <= i < s2.len() && (#[trigger] s2[i]).id.bytes@ == m;
            assert(appears(s2, s2[i]));
            assert(appears(s1, s2[i]));
            let j = choose|j: int| 0 <= j < s1.len() && s1[j] == s2[i];
            assert((s1[j]).id.bytes@ == m);
        }
    }
    assert(has_gas_payment(s1, m) == has_gas_payment(s2, m)) by {
        if has_gas_payment(s1, m) {
            let i = choose|i: int|
                0 <= i < s1.len() && (#[trigger] s1[i]).id.bytes@ != m && s1[i].balance
                    >= GAS_BUDGET;
            assert(appears(s1, s1[i]));
            let j = choose|j: int| 0 <= j < s2.len() && s2[j] == s1[i];
            assert((s2[j]).id.bytes@ != m && s2[j].balance >= GAS_BUDGET);
        }
        if has_gas_payment(s2, m) {
            let i = choose|i: int|
                0 <= i < s2.len() && (#[trigger] s2[i]).id.bytes@ != m && s2[i].balance
                    >= GAS_BUDGET;
            assert(appears(s2, s2[i]));
            assert(appears(s1, s2[i]));
            let j = choose|j: int| 0 <= j < s1.len() && s1[j] == s2[i];
            assert((s1[j]).id.bytes@ != m && s1[j].balance >= GAS_BUDGET);
        }
    }
}

/// Every coin the pool exclusion keeps has a hex text outside the pool list.
proof fn lemma_excluding_not_pooled(coins: Seq<CoinInfo>, pool_texts: Seq<Seq<u8>>)
    ensures
        forall|i: int|
            0 <= i < spec_excluding(coins, pool_texts).len() ==> !pool_texts.contains(
                crate::coin::spec_id_text(
                    (#[trigger] spec_excluding(coins, pool_texts)[i]).id.bytes@,
                ),
            ),
    decreases coins.len(),
{
    if coins.len() > 0 {
        let prefix = coins.drop_last();
        let c = coins.last();
        lemma_excluding_not_pooled(prefix, pool_texts);
        let ex = spec_excluding(coins, pool_texts);
        let exp = spec_excluding(prefix, pool_texts);
        if pool_texts.contains(crate::coin::spec_id_text(c.id.bytes@)) {
            assert(ex =~= exp);
        } else {
            assert(ex =~= exp.push(c));
        }
    }
}

/// The periodic merge-and-split planner, with the pool policy it enforces.
pub struct CoinManager {
    pub max_capacity: u64,
    pub min_pool_count: u64,
    pub coin_balance: u64,
    pub sponsor: Address,
}

impl CoinManager {
    /// The low watermark sits at or under the target depth.
    pub open spec fn inv(&self) -> bool {
        self.min_pool_count <= self.max_capacity
    }

    pub fn new(max_capacity: u64, min_pool_count: u64, coin_balance: u64, sponsor: Address) -> (r:
        CoinManager)
        requires
            min_pool_count <= max_capacity,
        ensures
            r.inv(),
            r.max_capacity == max_capacity,
            r.min_pool_count == min_pool_count,
            r.coin_balance == coin_balance,
            r.sponsor == sponsor,
    {
        CoinManager { max_capacity, min_pool_count, coin_balance, sponsor }
    }

    /// Whether the pool has fallen to the low watermark and must be
    /// refilled.
    pub fn should_rebalance(&self, depth: usize) -> (r: bool)
        ensures
            r == (depth <= self.min_pool_count),
    {
        depth as u64 <= self.min_pool_count
    }

    /// The store keys for a batch of freshly created pool coins, one per
    /// coin, in order.  The caller writes each key before it enqueues the
    /// coin, so a crash leaves at most an orphan store entry and never an
    /// orphan queue record.
    pub fn process_new_coins(&self, new_coins: &Vec<CoinId>) -> (r: Vec<Vec<u8>>)
        ensures
            r@.len() == new_coins@.len(),
            forall|i: int|
                0 <= i < r@.len() ==> #[trigger] r@[i]@ == crate::coin::spec_gas_key(
                    new_coins@[i].bytes@,
                ),
    {
        let mut r: Vec<Vec<u8>> = Vec::new();
        let n = new_coins.len();
        let mut i: usize = 0;
        while i < n
            invariant
                n == new_coins@.len(),
                i <= n,
                r@.len() == i,
                forall|j: int|
                    0 <= j < i ==> #[trigger] r@[j]@ == crate::coin::spec_gas_key(
                        new_coins@[j].bytes@,
                    ),
            decreases n - i,
        {
            let key = new_coins[i].gas_key();
            r.push(key);
            i = i + 1;
        }
        r
    }

    /// Plans one rebalance over the sponsor's loose coins, sorted by balance
    /// descending and already purged of pool coins: the master and every
    /// coin of its identifier leave the merge set, the cheapest coin that
    /// can pay for the transaction becomes the gas payment, everything else
    /// is merged, and the split refills the pool to capacity.
    pub fn rebalance_coins(
        &self,
        input_coins: Vec<CoinInfo>,
        master_id: &CoinId,
        gas_pool_coin_count: u64,
    ) -> (r: Result<RebalancePlan, Error>)
        requires
            sorted_desc(input_coins@),
            gas_pool_coin_count <= self.max_capacity,
        ensures
            r is Ok <==> has_master(input_coins@, master_id.bytes@) && has_gas_payment(
                input_coins@,
                master_id.bytes@,
            ),
            match r {
                Ok(p) => {
                    &&& p.master.id.bytes@ == master_id.bytes@
                    &&& appears(input_coins@, p.master)
                    &&& p.gas_payment.id.bytes@ != master_id.bytes@
                    &&& p.gas_payment.balance >= GAS_BUDGET
                    &&& appears(input_coins@, p.gas_payment)
                    &&& (forall|i: int|
                        0 <= i < input_coins@.len() && (#[trigger] input_coins@[i]).id.bytes@
                            != master_id.bytes@ && input_coins@[i].balance >= GAS_BUDGET
                            ==> input_coins@[i].balance >= p.gas_payment.balance)
                    &&& p.merge_inputs@.to_multiset() == spec_without_id(
                        input_coins@,
                        master_id.bytes@,
                    ).to_multiset().remove(p.gas_payment)
                    &&& p.new_coin_count == self.max_capacity - gas_pool_coin_count
                    &&& p.split_amount == self.coin_balance
                },
                Err(e) => e == Error::Rebalance,
            },
    {
        broadcast use vstd::seq_lib::group_to_multiset_ensures;

        let ghost input = input_coins@;
        proof {
            lemma_without_id_sorted(input, master_id.bytes@);
            lemma_partition_facts(input, master_id.bytes@);
        }
        let (mut kept, mut matched) = partition_by_id(input_coins, master_id);
        if matched.len() == 0 {
            proof {
                assert(!has_master(input, master_id.bytes@)) by {
                    if has_master(input, master_id.bytes@) {
                        let i = choose|i: int|
                            0 <= i < input.len() && (#[trigger] input[i]).id.bytes@
                                == master_id.bytes@;
                        assert(appears(spec_only_id(input, master_id.bytes@), input[i]));
                    }
                };
            }
            return Err(Error::Rebalance);
        }
        let master = matched.remove(0);
        proof {
            assert(appears(input, master));
        }
        let pi = match get_gas_payment_coin_index(&kept) {
            Ok(pi) => pi,
            Err(e) => {
                proof {
                    assert(!has_gas_payment(input, master_id.bytes@)) by {
                        if has_gas_payment(input, master_id.bytes@) {
                            let i = choose|i: int|
                                0 <= i < input.len() && (#[trigger] input[i]).id.bytes@
                                    != master_id.bytes@ && input[i].balance >= GAS_BUDGET;
                            assert(appears(spec_without_id(input, master_id.bytes@), input[i]));
                            let j = choose|j: int|
                                0 <= j < kept@.len() && kept@[j] == input[i];
                            assert(kept@[j].balance < GAS_BUDGET);
                        }
                    };
                }
                return Err(e);
            },
        };
        let ghost kept0 = kept@;
        let payment = kept.remove(pi);
        proof {
            assert(appears(input, payment));
            assert(kept@.to_multiset() =~= kept0.to_multiset().remove(payment));
            assert forall|i: int|
                0 <= i < input.len() && (#[trigger] input[i]).id.bytes@ != master_id.bytes@
                    && input[i].balance >= GAS_BUDGET implies input[i].balance
                >= payment.balance by {
                assert(appears(kept0, input[i]));
                let j = choose|j: int| 0 <= j < kept0.len() && kept0[j] == input[i];
                assert(j <= pi);
            };
            assert(has_master(input, master_id.bytes@));
            assert(has_gas_payment(input, master_id.bytes@));
        }
        let new_coin_count = self.max_capacity - gas_pool_coin_count;
        Ok(
            RebalancePlan {
                master,
                gas_payment: payment,
                merge_inputs: kept,
                new_coin_count,
                split_amount: self.coin_balance,
            },
        )
    }

    /// One full planning pass of the manager loop: refuse to run with fewer
    /// than two funded coins, elect the master, set aside the coins already
    /// pooled, and plan the rebalance.  On success the caller persists the
    /// master when asked, executes the plan on-chain, and feeds the created
    /// coins through [`CoinManager::process_new_coins`] and the queue.
    pub fn execute(
        &self,
        coins: Vec<CoinInfo>,
        pool_texts: &Vec<Vec<u8>>,
        stored_master: Option<CoinId>,
    ) -> (r: Result<(RebalancePlan, CoinId, bool), Error>)
        requires
            self.inv(),
            pool_texts@.len() <= self.min_pool_count,
        ensures
            r is Ok <==> (spec_nonempty_count(coins@) >= 2 && (spec_elected(
                stored_master,
                coins@,
            ) matches Some(m) && has_master(
                spec_excluding(coins@, spec_pool_texts(pool_texts@)),
                m,
            ) && has_gas_payment(spec_excluding(coins@, spec_pool_texts(pool_texts@)), m))),
            match r {
                Ok(t) => {
                    &&& spec_nonempty_count(coins@) >= 2
                    &&& spec_elected(stored_master, coins@) == Some(t.1.bytes@)
                    &&& (match stored_master {
                        Some(m) => t.1.bytes@ == m.bytes@ && !t.2,
                        None => t.2 && (exists|i: int|
                            0 <= i < coins@.len() && (#[trigger] coins@[i]).id.bytes@
                                == t.1.bytes@ && is_largest(coins@, i)),
                    })
                    &&& t.0.master.id.bytes@ == t.1.bytes@
                    &&& t.0.gas_payment.id.bytes@ != t.1.bytes@
                    &&& t.0.gas_payment.balance >= GAS_BUDGET
                    &&& appears(spec_excluding(coins@, spec_pool_texts(pool_texts@)), t.0.master)
                    &&& appears(
                        spec_excluding(coins@, spec_pool_texts(pool_texts@)),
                        t.0.gas_payment,
                    )
                    &&& !spec_pool_texts(pool_texts@).contains(
                        crate::coin::spec_id_text(t.0.master.id.bytes@),
                    )
                    &&& !spec_pool_texts(pool_texts@).contains(
                        crate::coin::spec_id_text(t.0.gas_payment.id.bytes@),
                    )
                    &&& (forall|i: int|
                        0 <= i < t.0.merge_inputs@.len() ==> !spec_pool_texts(
                            pool_texts@,
                        ).contains(
                            crate::coin::spec_id_text(
                                (#[trigger] t.0.merge_inputs@[i]).id.bytes@,
                            ),
                        ))
                    &&& t.0.new_coin_count == self.max_capacity - pool_texts@.len()
                    &&& t.0.split_amount == self.coin_balance
                    &&& t.0.merge_inputs@.to_multiset() == coins@.to_multiset().filter(
                        |c: CoinInfo|
                            !spec_pool_texts(pool_texts@).contains(
                                crate::coin::spec_id_text(c.id.bytes@),
                            ),
                    ).filter(|c: CoinInfo| c.id.bytes@ != t.1.bytes@).remove(t.0.gas_payment)
                },
                Err(e) => e == Error::Rebalance,
            },
    {
        let n = coins.len();
        let mut funded: usize = 0;
        let mut i: usize = 0;
        while i < n
            invariant
                n == coins@.len(),
                i <= n,
                funded == spec_nonempty_count(coins@.take(i as int)),
                funded <= i,
            decreases n - i,
        {
            if coins[i].balance > 0 {
                funded = funded + 1;
            }
            proof {
                assert(coins@.take(i + 1).drop_last() =~= coins@.take(i as int));
                assert(coins@.take(i + 1).last() == coins@[i as int]);
            }
            i = i + 1;
        }
        proof {
            assert(coins@.take(n as int) =~= coins@);
        }
        if funded <= 1 {
            return Err(Error::Rebalance);
        }
        let (master, persist) = match elect_master(stored_master, &coins) {
            Ok(p) => p,
            Err(e) => {
                return Err(e);
            },
        };
        let ghost texts = spec_pool_texts(pool_texts@);
        let ghost all = coins@;
        let filtered = exclude_pool_coins(coins, pool_texts);
        let sorted = sort_coins_desc(filtered);
        let ghost sorted_view = sorted@;
        proof {
            lemma_excluding_multiset(all, texts);
            lemma_without_id_multiset(sorted@, master.bytes@);
            lemma_same_coins(sorted_view, spec_excluding(all, texts), master.bytes@);
        }
        let plan = match self.rebalance_coins(sorted, &master, pool_texts.len() as u64) {
            Ok(plan) => plan,
            Err(e) => {
                return Err(e);
            },
        };
        proof {
            lemma_without_id_multiset(spec_excluding(all, texts), master.bytes@);
            lemma_excluding_not_pooled(all, texts);
            let excl = spec_excluding(all, texts);
            assert(appears(excl, plan.master)) by {
                assert(appears(sorted_view, plan.master));
            }
            assert(appears(excl, plan.gas_payment)) by {
                assert(appears(sorted_view, plan.gas_payment));
            }
            assert(!texts.contains(crate::coin::spec_id_text(plan.master.id.bytes@))) by {
                let j = choose|j: int| 0 <= j < excl.len() && excl[j] == plan.master;
                assert(!texts.contains(crate::coin::spec_id_text(excl[j].id.bytes@)));
            }
            assert(!texts.contains(crate::coin::spec_id_text(plan.gas_payment.id.bytes@))) by {
                let j = choose|j: int| 0 <= j < excl.len() && excl[j] == plan.gas_payment;
                assert(!texts.contains(crate::coin::spec_id_text(excl[j].id.bytes@)));
            }
            let keep = |c: CoinInfo| !spec_pool_texts(pool_texts@).contains(
                crate::coin::spec_id_text(c.id.bytes@),
            );
            let nonmaster = |c: CoinInfo| c.id.bytes@ != master.bytes@;
            assert(plan.merge_inputs@.to_multiset() == all.to_multiset().filter(keep).filter(
                nonmaster,
            ).remove(plan.gas_payment));
            assert forall|i: int|
                0 <= i < plan.merge_inputs@.len() implies !spec_pool_texts(pool_texts@).contains(
                crate::coin::spec_id_text((#[trigger] plan.merge_inputs@[i]).id.bytes@),
            ) by {
                broadcast use vstd::seq_lib::group_to_multiset_ensures;

                let c = plan.merge_inputs@[i];
                assert(plan.merge_inputs@.contains(c));
                assert(plan.merge_inputs@.to_multiset().count(c) > 0);
                let t1 = all.to_multiset().filter(keep);
                let t2 = t1.filter(nonmaster);
                assert(t2.remove(plan.gas_payment).count(c) > 0);
                assert(t2.count(c) > 0);
                assert(t1.count(c) > 0);
                assert(keep(c));
            }
        }
        Ok((plan, master, persist))
    }
}

/// The pool refill bound: a rebalance plans exactly as many fresh coins as
/// the pool is short of its target, so a plan that executes in full brings
/// the depth back to capacity.
pub proof fn lemma_refill_bound(max_capacity: u64, depth: int, new_coin_count: u64)
    requires
        0 <= depth <= max_capacity,
        new_coin_count == max_capacity - depth,
    ensures
        depth + new_coin_count == max_capacity,
{
}

} // verus!
