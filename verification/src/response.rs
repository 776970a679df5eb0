//! The core's view of a transaction-execution response, and what it reads
//! from one: errors and newly created objects.

use vstd::prelude::*;
use crate::admission::TransactionData;
use crate::coin::CoinId;
use crate::meter::GasCostSummary;

verus! {

/// How the chain says execution ended.
pub enum ExecutionStatus {
    Success,
    Failure(String),
}

/// The effects section of a response: outcome and cost.
pub struct TxEffects {
    pub status: ExecutionStatus,
    pub gas_used: GasCostSummary,
}

/// One reported object change, reduced to what the core reads: a freshly
/// created object's identifier, or anything else.
pub enum ObjectChange {
    Created(CoinId),
    Other,
}

/// A transaction-execution response as the core sees it.
pub struct TxResponse {
    pub errors: Vec<String>,
    pub effects: Option<TxEffects>,
    pub object_changes: Option<Vec<ObjectChange>>,
}

/// Every error a response carries: the response's own error list when it is
/// nonempty, else the failure message of the effects, else nothing.
pub open spec fn spec_errors(resp: TxResponse) -> Seq<Seq<char>> {
    if resp.errors@.len() > 0 {
        resp.errors@.map_values(|s: String| s@)
    } else {
        match resp.effects {
            Some(effects) => match effects.status {
                ExecutionStatus::Failure(error) => seq![error@],
                ExecutionStatus::Success => Seq::empty(),
            },
            None => Seq::empty(),
        }
    }
}

/// The identifier bytes of the objects a change list reports as created, in
/// order.
pub open spec fn spec_created(changes: Seq<ObjectChange>) -> Seq<Seq<u8>>
    decreases changes.len(),
{
    if changes.len() == 0 {
        Seq::empty()
    } else {
        spec_created(changes.drop_last()) + (match changes.last() {
            ObjectChange::Created(id) => seq![id.bytes@],
            ObjectChange::Other => Seq::empty(),
        })
    }
}

/// Reads the created-object identifiers out of a response; an absent change
/// list reports nothing created.
pub fn get_created_objects(resp: &TxResponse) -> (r: Vec<CoinId>)
    ensures
        match resp.object_changes {
            Some(changes) => r@.map_values(|c: CoinId| c.bytes@) == spec_created(changes@),
            None => r@.len() == 0,
        },
{
    let mut r: Vec<CoinId> = Vec::new();
    let changes = match &resp.object_changes {
        Some(changes) => changes,
        None => {
            assert(r@.map_values(|c: CoinId| c.bytes@) =~= Seq::<Seq<u8>>::empty());
            return r;
        },
    };
    let n = changes.len();
    let mut i: usize = 0;
    assert(r@.map_values(|c: CoinId| c.bytes@) =~= spec_created(changes@.take(0)));
    while i < n
        invariant
            resp.object_changes matches Some(c) && c == *changes,
            n == changes@.len(),
            i <= n,
            r@.map_values(|c: CoinId| c.bytes@) =~= spec_created(changes@.take(i as int)),
        decreases n - i,
    {
        let ghost prefix = r@.map_values(|c: CoinId| c.bytes@);
        match &changes[i] {
            ObjectChange::Created(id) => {
                r.push(id.duplicate());
                assert(r@.map_values(|c: CoinId| c.bytes@) =~= prefix.push(id.bytes@));
            },
            ObjectChange::Other => {},
        }
        proof {
            assert(changes@.take(i + 1).drop_last() =~= changes@.take(i as int));
            assert(changes@.take(i + 1).last() == changes@[i as int]);
        }
        i = i + 1;
    }
    assert(changes@.take(n as int) =~= changes@);
    r
}

/// Reading and combining execution responses; submitting them is the
/// caller's RPC work.
pub struct TxManager {}

impl TxManager {
    pub fn new() -> (r: TxManager) {
        TxManager {  }
    }

    /// Whether the response reports any error.
    pub fn has_errors(resp: &TxResponse) -> (r: bool)
        ensures
            r == (spec_errors(*resp).len() > 0),
    {
        Self::get_errors(resp).len() > 0
    }

    /// Every error the response carries.
    pub fn get_errors(resp: &TxResponse) -> (r: Vec<String>)
        ensures
            r@.map_values(|s: String| s@) =~= spec_errors(*resp),
    {
        if resp.errors.len() > 0 {
            let mut out: Vec<String> = Vec::new();
            let n = resp.errors.len();
            let mut i: usize = 0;
            while i < n
                invariant
                    n == resp.errors@.len(),
                    i <= n,
                    out@.len() == i,
                    forall|j: int| 0 <= j < i ==> #[trigger] out@[j]@ == resp.errors@[j]@,
                decreases n - i,
            {
                out.push(resp.errors[i].clone());
                i = i + 1;
            }
            assert(out@.map_values(|s: String| s@) =~= resp.errors@.map_values(|s: String| s@));
            return out;
        }
        match &resp.effects {
            Some(effects) => match &effects.status {
                ExecutionStatus::Failure(error) => {
                    let mut out: Vec<String> = Vec::new();
                    out.push(error.clone());
                    assert(out@.map_values(|s: String| s@) =~= seq![error@]);
                    out
                },
                ExecutionStatus::Success => Vec::new(),
            },
            None => Vec::new(),
        }
    }

    /// Every coin identifier in the transaction's gas payment, in order.
    pub fn extract_gas_objects_ids(tx: &TransactionData) -> (r: Vec<CoinId>)
        ensures
            r@.len() == tx.gas_data.payment@.len(),
            forall|i: int|
                0 <= i < r@.len() ==> #[trigger] r@[i].bytes@ == tx.gas_data.payment@[i].id.bytes@,
    {
        let mut r: Vec<CoinId> = Vec::new();
        let n = tx.gas_data.payment.len();
        let mut i: usize = 0;
        while i < n
            invariant
                n == tx.gas_data.payment@.len(),
                i <= n,
                r@.len() == i,
                forall|j: int|
                    0 <= j < i ==> #[trigger] r@[j].bytes@ == tx.gas_data.payment@[j].id.bytes@,
            decreases n - i,
        {
            r.push(tx.gas_data.payment[i].id.duplicate());
            i = i + 1;
        }
        r
    }
}

} // verus!
