use sui_sponsor::admission::{GasData, TransactionData, TxCommand, TxKind};
use sui_sponsor::coin::{Address, CoinId};
use sui_sponsor::codec::NewCoinObject;
use sui_sponsor::errors::Error;
use sui_sponsor::pool::GasPool;
use sui_sponsor::sponsor::{CoinDisposition, Sponsor};

fn coin_id(fill: u8) -> CoinId {
    CoinId { bytes: vec![fill; 32] }
}

fn record_for(fill: u8) -> Vec<u8> {
    NewCoinObject { id: coin_id(fill).to_hex_text() }.encode()
}

fn empty_tx() -> TransactionData {
    TransactionData {
        sender: Address { bytes: vec![7; 32] },
        kind: TxKind::Programmable(vec![TxCommand::SplitCoins]),
        gas_data: GasData {
            payment: vec![],
            owner: Address { bytes: vec![7; 32] },
            price: 1000,
            budget: 50_000_000,
        },
    }
}

#[test]
fn empty_pool_reports_pool_empty() {
    let mut pool = GasPool::new();
    let err = pool.gas_object(None, 0).unwrap_err();
    assert_eq!(err, Error::PoolEmpty);
    assert_eq!(err.http_status(), 503);
    assert_eq!(err.message(), "Gas pool empty");
}

#[test]
fn happy_path_lease_and_return() {
    let mut pool = GasPool::new();
    let id = pool.gas_object(Some((record_for(0x11), 1)), 100).unwrap();
    assert_eq!(id.bytes, vec![0x11; 32]);
    assert_eq!(pool.leased_count(), 1);

    let sponsor = Sponsor {
        gas_pool: GasPool::new(),
        min_coin_balance: 1_000_000,
        max_gas_budget: 50_000_000,
    };
    // Post-transaction balance well above the threshold: the coin returns.
    assert_eq!(sponsor.gas_object_processed(10_000_000), CoinDisposition::Requeue);

    let handle = pool.return_gas_object(&id).unwrap();
    assert_eq!(handle, 1);
    assert_eq!(pool.leased_count(), 0);
}

#[test]
fn retirement_when_balance_dips() {
    let mut pool = GasPool::new();
    let id = pool.gas_object(Some((record_for(0x22), 9)), 100).unwrap();

    let sponsor = Sponsor {
        gas_pool: GasPool::new(),
        min_coin_balance: 1_000_000,
        max_gas_budget: 50_000_000,
    };
    assert_eq!(sponsor.gas_object_processed(500_000), CoinDisposition::Retire);
    // Threshold itself also retires.
    assert_eq!(sponsor.gas_object_processed(1_000_000), CoinDisposition::Retire);

    // The store key to delete before acking.
    let key = id.gas_key();
    let mut expected = b"gas:0x".to_vec();
    expected.extend(std::iter::repeat(b"22".to_vec()).take(32).flatten());
    assert_eq!(key, expected);

    let handle = pool.remove_gas_object(&id).unwrap();
    assert_eq!(handle, 9);
    // The lease is gone: a second settlement fails.
    assert_eq!(pool.remove_gas_object(&id).unwrap_err(), Error::LeaseNotFound);
}

#[test]
fn concurrent_leases_get_distinct_coins() {
    let mut pool = GasPool::new();
    let a = pool.gas_object(Some((record_for(0x01), 1)), 5).unwrap();
    let b = pool.gas_object(Some((record_for(0x02), 2)), 6).unwrap();
    assert_ne!(a.bytes, b.bytes);
    assert_eq!(pool.leased_count(), 2);
}

#[test]
fn double_delivery_is_equivocation() {
    let mut pool = GasPool::new();
    pool.gas_object(Some((record_for(0x33), 1)), 5).unwrap();
    let err = pool.gas_object(Some((record_for(0x33), 2)), 6).unwrap_err();
    assert_eq!(err, Error::Equivocation);
    assert_eq!(err.http_status(), 500);
    assert_eq!(pool.leased_count(), 1);
}

#[test]
fn malformed_record_is_a_decode_error() {
    let mut pool = GasPool::new();
    assert_eq!(pool.gas_object(Some((vec![1, 2, 3], 1)), 5).unwrap_err(), Error::Decode);
    // Well-framed record whose body is not a coin id.
    let bad = NewCoinObject { id: b"0xzz".to_vec() }.encode();
    assert_eq!(pool.gas_object(Some((bad, 2)), 5).unwrap_err(), Error::Decode);
    assert_eq!(pool.leased_count(), 0);
}

#[test]
fn stalled_lease_is_swept() {
    let mut pool = GasPool::new();
    pool.gas_object(Some((record_for(0x44), 7)), 0).unwrap();
    pool.gas_object(Some((record_for(0x55), 8)), 290).unwrap();

    // At 301 with a TTL of 300 only the first lease has stalled.
    let handles = pool.sweep_stalled(301, 300);
    assert_eq!(handles, vec![7]);
    assert_eq!(pool.leased_count(), 1);

    // A second sweep finds nothing more.
    assert!(pool.sweep_stalled(301, 300).is_empty());

    // Much later the second lease stalls too.
    assert_eq!(pool.sweep_stalled(1000, 300), vec![8]);
    assert_eq!(pool.leased_count(), 0);
}

#[test]
fn return_after_return_reports_missing_lease() {
    let mut pool = GasPool::new();
    let id = pool.gas_object(Some((record_for(0x66), 3)), 1).unwrap();
    assert_eq!(pool.return_gas_object(&id).unwrap(), 3);
    assert_eq!(pool.return_gas_object(&id).unwrap_err(), Error::LeaseNotFound);
}

#[test]
fn request_gas_admits_then_leases() {
    let mut sponsor = Sponsor {
        gas_pool: GasPool::new(),
        min_coin_balance: 1_000_000,
        max_gas_budget: 50_000_000,
    };
    let tx = empty_tx();
    let id = sponsor.request_gas(&tx, Some((record_for(0x77), 4)), 10).unwrap();
    assert_eq!(id.bytes, vec![0x77; 32]);

    // An unsupported transaction never reaches the pool.
    let mut bad = empty_tx();
    bad.kind = TxKind::Programmable(vec![TxCommand::Publish]);
    let err = sponsor.request_gas(&bad, Some((record_for(0x78), 5)), 11).unwrap_err();
    assert_eq!(err, Error::UnsupportedTransaction);
    assert_eq!(err.http_status(), 422);
}
