//! Error taxonomy of the service and its mapping onto HTTP status codes.

use vstd::prelude::*;

verus! {

/// Every failure the core can report.  The surrounding process turns a value
/// of this type into an HTTP response through [`Error::http_status`] and
/// [`Error::message`].
#[derive(Clone, Copy, Debug, PartialEq, Eq, Structural)]
pub enum Error {
    /// A request body or a queue record could not be decoded.
    Decode,
    /// Admission control refused the transaction.
    UnsupportedTransaction,
    /// The durable queue had no coin to lease.
    PoolEmpty,
    /// A dequeued coin is already leased: a duplicate delivery or an operator
    /// error; leasing it again would risk locking the coin on-chain.
    Equivocation,
    /// A chain RPC call failed before the transaction was signed.
    Chain,
    /// The broker or the key-value store failed.
    Infra,
    /// A return or a retirement named a coin that holds no live lease.
    LeaseNotFound,
    /// A rebalance could not even be planned: too few sponsor coins, no
    /// master, or nothing rich enough to pay for it.
    Rebalance,
}

impl Error {
    /// The HTTP status code under which the service surfaces this error.
    pub fn http_status(&self) -> (code: u16)
        ensures
            code == self.spec_http_status(),
    {
        match self {
            Error::Decode => 400,
            Error::UnsupportedTransaction => 422,
            Error::PoolEmpty => 503,
            Error::Equivocation => 500,
            Error::Chain => 502,
            Error::Infra => 503,
            Error::LeaseNotFound => 500,
            Error::Rebalance => 500,
        }
    }

    pub open spec fn spec_http_status(self) -> u16 {
        match self {
            Error::Decode => 400u16,
            Error::UnsupportedTransaction => 422u16,
            Error::PoolEmpty => 503u16,
            Error::Equivocation => 500u16,
            Error::Chain => 502u16,
            Error::Infra => 503u16,
            Error::LeaseNotFound => 500u16,
            Error::Rebalance => 500u16,
        }
    }

    /// The human-readable body line for this error.
    pub fn message(&self) -> (msg: &'static str)
        ensures
            msg@ == self.spec_message(),
    {
        match self {
            Error::Decode => "Malformed request",
            Error::UnsupportedTransaction => "Transaction is not supported",
            Error::PoolEmpty => "Gas pool empty",
            Error::Equivocation => "Possible equivocation",
            Error::Chain => "Chain request failed",
            Error::Infra => "Infrastructure error",
            Error::LeaseNotFound => "Coin id not found",
            Error::Rebalance => "Rebalance aborted",
        }
    }

    pub open spec fn spec_message(self) -> Seq<char> {
        match self {
            Error::Decode => "Malformed request"@,
            Error::UnsupportedTransaction => "Transaction is not supported"@,
            Error::PoolEmpty => "Gas pool empty"@,
            Error::Equivocation => "Possible equivocation"@,
            Error::Chain => "Chain request failed"@,
            Error::Infra => "Infrastructure error"@,
            Error::LeaseNotFound => "Coin id not found"@,
            Error::Rebalance => "Rebalance aborted"@,
        }
    }
}

} // verus!
