//! Coin-lifecycle core of a gas-sponsorship service for a Sui-family chain.
//!
//! The library owns the decisions of the service: which coin a request may
//! lease (never two requests on the same coin), when a coin returns to the
//! pool and when it is retired, which transactions the sponsor admits, and
//! how the coin manager plans a merge-and-split rebalance.  Everything that
//! talks to the network (HTTP, the broker, the key-value store, chain RPC)
//! stays outside and hands the library plain values.

pub mod admission;
pub mod codec;
pub mod coin;
pub mod config;
pub mod errors;
pub mod hexfmt;
pub mod json;
pub mod manager;
pub mod meter;
pub mod pool;
pub mod registry;
pub mod response;
pub mod sponsor;
pub mod wallet;
