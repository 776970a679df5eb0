//! The sponsor service: the two-step request/submit protocol around a coin's
//! lease window.
//!
//! `request_gas` admits a transaction and leases one coin for it;
//! `create_gas_data` builds the gas section once the coin's on-chain
//! reference is known; `sign_tx` re-admits the completed transaction and
//! produces the intent-wrapped payload for the wallet; after submission the
//! coin's fate follows its remaining balance.

use vstd::prelude::*;
use crate::admission::{intent_message, is_gas_budget_within_limits, is_tx_supported,
    spec_admissible, spec_budget_within_limits, spec_intent_message, spec_tx_supported, GasData,
    TransactionData};
use crate::coin::{Address, CoinId, CoinRef};
use crate::errors::Error;
use crate::pool::{lease_outcome, GasPool};

verus! {

/// What to do with a coin once its transaction has settled.
#[derive(Clone, Copy, Debug, PartialEq, Eq, Structural)]
pub enum CoinDisposition {
    /// Nack the delivery: the coin still carries value and goes back to the
    /// queue.
    Requeue,
    /// Delete the coin's store key, then ack the delivery: the coin is dust
    /// and leaves the pool for good.
    Retire,
}

/// The sponsor service: admission policy around the gas pool.
pub struct Sponsor {
    pub gas_pool: GasPool,
    pub min_coin_balance: u64,
    pub max_gas_budget: u64,
}

impl Sponsor {
    pub open spec fn inv(&self) -> bool {
        self.gas_pool.inv()
    }

    pub fn new(gas_pool: GasPool, min_coin_balance: u64, max_gas_budget: u64) -> (r: Sponsor)
        requires
            gas_pool.inv(),
        ensures
            r.inv(),
            r.gas_pool@ == gas_pool@,
            r.min_coin_balance == min_coin_balance,
            r.max_gas_budget == max_gas_budget,
    {
        Sponsor { gas_pool, min_coin_balance, max_gas_budget }
    }

    /// Admits the transaction and leases one coin for it.  The caller passes
    /// the next queue delivery (`None` when the queue is empty) and then
    /// fetches the leased coin's on-chain reference for
    /// [`Sponsor::create_gas_data`].
    pub fn request_gas(
        &mut self,
        tx: &TransactionData,
        delivery: Option<(Vec<u8>, u64)>,
        now: u64,
    ) -> (r: Result<CoinId, Error>)
        requires
            old(self).inv(),
        ensures
            final(self).inv(),
            final(self).min_coin_balance == old(self).min_coin_balance,
            final(self).max_gas_budget == old(self).max_gas_budget,
            !spec_tx_supported(*tx) ==> (r matches Err(e) && e == Error::UnsupportedTransaction)
                && final(self).gas_pool@ == old(self).gas_pool@,
            spec_tx_supported(*tx) ==> (match delivery {
                None => (r matches Err(e) && e == Error::PoolEmpty) && final(self).gas_pool@ == old(
                    self,
                ).gas_pool@,
                Some(d) => final(self).gas_pool@ == lease_outcome(
                    old(self).gas_pool@,
                    d.0@,
                    d.1,
                    now,
                ).0 && (match r {
                    Ok(id) => (lease_outcome(old(self).gas_pool@, d.0@, d.1, now).1 matches Ok(b)
                        && b == id.bytes@) && id.wf(),
                    Err(e) => (lease_outcome(old(self).gas_pool@, d.0@, d.1, now).1 matches Err(e2)
                        && e2 == e),
                }),
            }),
    {
        if !is_tx_supported(tx) {
            return Err(Error::UnsupportedTransaction);
        }
        self.gas_pool.gas_object(delivery, now)
    }

    /// Builds the gas section for a leased coin: exactly that coin as
    /// payment, the sponsor as owner, the live price, and the policy budget
    /// — never a dry-run of the client's still-incomplete transaction.
    /// Refused only when the result falls outside the budget policy.
    pub fn create_gas_data(&self, coin_ref: CoinRef, owner: Address, price: u64) -> (r: Result<
        GasData,
        Error,
    >)
        ensures
            r is Ok <==> crate::admission::spec_budget_ok(self.max_gas_budget),
            match r {
                Ok(g) => g.payment@ == seq![coin_ref] && g.owner == owner && g.price == price
                    && g.budget == self.max_gas_budget,
                Err(e) => e == Error::UnsupportedTransaction,
            },
    {
        let gas_data = GasData {
            payment: vec![coin_ref],
            owner,
            price,
            budget: self.max_gas_budget,
        };
        if !is_gas_budget_within_limits(&gas_data) {
            proof {
                assert(gas_data.payment@ =~= seq![coin_ref]);
            }
            return Err(Error::UnsupportedTransaction);
        }
        proof {
            assert(gas_data.payment@ =~= seq![coin_ref]);
        }
        Ok(gas_data)
    }

    /// Re-admits the completed transaction — the same checks as
    /// [`Sponsor::request_gas`], so neither call can be bypassed — and hands
    /// back the intent-wrapped payload the wallet signs.  `tx_bytes` is the
    /// serialized transaction as the client sent it.
    pub fn sign_tx(&self, tx: &TransactionData, tx_bytes: &Vec<u8>) -> (r: Result<Vec<u8>, Error>)
        ensures
            match r {
                Ok(msg) => spec_admissible(*tx) && msg@ == spec_intent_message(tx_bytes@),
                Err(e) => !spec_admissible(*tx) && e == Error::UnsupportedTransaction,
            },
    {
        if !is_tx_supported(tx) {
            return Err(Error::UnsupportedTransaction);
        }
        if !is_gas_budget_within_limits(&tx.gas_data) {
            return Err(Error::UnsupportedTransaction);
        }
        Ok(intent_message(tx_bytes))
    }

    /// Decides a settled coin's fate from its post-transaction balance: dust
    /// retires, value requeues.  This is the only release path on the happy
    /// path; after a crash the sweeper reclaims the lease instead.
    pub fn gas_object_processed(&self, balance: u64) -> (r: CoinDisposition)
        ensures
            r == (if balance <= self.min_coin_balance {
                CoinDisposition::Retire
            } else {
                CoinDisposition::Requeue
            }),
    {
        if balance <= self.min_coin_balance {
            CoinDisposition::Retire
        } else {
            CoinDisposition::Requeue
        }
    }
}

} // verus!
