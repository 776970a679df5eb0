use sui_sponsor::admission::{
    intent_message, is_tx_supported, GasData, MoveCallTarget, TransactionData, TxCommand, TxKind,
};
use sui_sponsor::coin::{Address, CoinId, CoinRef};
use sui_sponsor::config::CorsConfig;
use sui_sponsor::errors::Error;
use sui_sponsor::manager::{
    elect_master, get_gas_payment_coin_index, sort_coins_desc, CoinInfo, CoinManager,
};
use sui_sponsor::meter::{GasCostSummary, GasMeter};
use sui_sponsor::pool::GasPool;
use sui_sponsor::response::{ExecutionStatus, ObjectChange, TxEffects, TxManager, TxResponse};
use sui_sponsor::sponsor::Sponsor;

fn coin(fill: u8, balance: u64) -> CoinInfo {
    CoinInfo { id: CoinId { bytes: vec![fill; 32] }, version: 1, digest: vec![fill; 32], balance }
}

fn sponsor_addr() -> Address {
    Address { bytes: vec![7; 32] }
}

fn tx_with(kind: TxKind) -> TransactionData {
    TransactionData {
        sender: Address { bytes: vec![1; 32] },
        kind,
        gas_data: GasData {
            payment: vec![],
            owner: sponsor_addr(),
            price: 1000,
            budget: 10_000_000,
        },
    }
}

#[test]
fn admission_accepts_supported_commands() {
    let target = MoveCallTarget {
        package: vec![2; 32],
        module: b"amm".to_vec(),
        function: b"swap".to_vec(),
    };
    let tx = tx_with(TxKind::Programmable(vec![
        TxCommand::MoveCall(target),
        TxCommand::SplitCoins,
        TxCommand::MergeCoins,
        TxCommand::TransferObjects,
    ]));
    assert!(is_tx_supported(&tx));
}

#[test]
fn admission_rejects_publish_upgrade_vec_and_system_kinds() {
    for cmd in [TxCommand::Publish, TxCommand::Upgrade, TxCommand::MakeMoveVec] {
        let tx = tx_with(TxKind::Programmable(vec![TxCommand::SplitCoins, cmd]));
        assert!(!is_tx_supported(&tx));
    }
    assert!(!is_tx_supported(&tx_with(TxKind::Other)));
}

#[test]
fn sign_tx_wraps_the_intent() {
    let sponsor = Sponsor {
        gas_pool: GasPool::new(),
        min_coin_balance: 1_000_000,
        max_gas_budget: 50_000_000,
    };
    let tx = tx_with(TxKind::Programmable(vec![TxCommand::SplitCoins]));
    let payload = sponsor.sign_tx(&tx, &b"txbytes".to_vec()).unwrap();
    assert_eq!(payload, b"\0\0\0txbytes".to_vec());
    assert_eq!(intent_message(&b"m".to_vec()), vec![0, 0, 0, b'm']);

    let err = sponsor.sign_tx(&tx_with(TxKind::Other), &b"txbytes".to_vec()).unwrap_err();
    assert_eq!(err, Error::UnsupportedTransaction);
}

#[test]
fn create_gas_data_uses_the_policy_budget() {
    let sponsor = Sponsor {
        gas_pool: GasPool::new(),
        min_coin_balance: 1_000_000,
        max_gas_budget: 50_000_000,
    };
    let coin_ref = CoinRef { id: CoinId { bytes: vec![3; 32] }, version: 4, digest: vec![5; 32] };
    let gas_data = sponsor.create_gas_data(coin_ref, sponsor_addr(), 750).unwrap();
    assert_eq!(gas_data.payment.len(), 1);
    assert_eq!(gas_data.payment[0].id.bytes, vec![3; 32]);
    assert_eq!(gas_data.payment[0].version, 4);
    assert_eq!(gas_data.owner.bytes, vec![7; 32]);
    assert_eq!(gas_data.price, 750);
    assert_eq!(gas_data.budget, 50_000_000);
}

#[test]
fn coins_sort_by_balance_descending() {
    let sorted = sort_coins_desc(vec![coin(1, 5), coin(2, 10), coin(3, 1), coin(4, 10)]);
    let balances: Vec<u64> = sorted.iter().map(|c| c.balance).collect();
    assert_eq!(balances, vec![10, 10, 5, 1]);
}

#[test]
fn gas_payment_is_the_smallest_sufficient_coin() {
    let coins = vec![coin(1, 200_000_000), coin(2, 180_000_000), coin(3, 100_000_000)];
    assert_eq!(get_gas_payment_coin_index(&coins).unwrap(), 1);
    let broke = vec![coin(1, 100_000_000)];
    assert_eq!(get_gas_payment_coin_index(&broke).unwrap_err(), Error::Rebalance);
}

#[test]
fn master_election_prefers_the_stored_master() {
    let coins = vec![coin(1, 50), coin(2, 100)];
    let stored = CoinId { bytes: vec![9; 32] };
    let (master, persist) = elect_master(Some(stored), &coins).unwrap();
    assert_eq!(master.bytes, vec![9; 32]);
    assert!(!persist);

    let (master, persist) = elect_master(None, &coins).unwrap();
    assert_eq!(master.bytes, vec![2; 32]);
    assert!(persist);

    // A tie goes to the first of the largest coins.
    let tied = vec![coin(5, 100), coin(6, 100)];
    let (master, _) = elect_master(None, &tied).unwrap();
    assert_eq!(master.bytes, vec![5; 32]);

    assert_eq!(elect_master(None, &vec![]).unwrap_err(), Error::Rebalance);
}

#[test]
fn rebalance_never_spends_a_pooled_master() {
    let manager = CoinManager::new(10, 3, 500_000_000, sponsor_addr());
    // The stored master itself sits in the pool: the planner refuses rather
    // than spend a pooled coin.
    let pooled_master = coin(1, 10_000_000_000);
    let pool_texts = vec![pooled_master.id.to_hex_text()];
    let coins = vec![pooled_master, coin(2, 200_000_000), coin(3, 50_000_000)];
    let stored = CoinId { bytes: vec![1; 32] };
    assert_eq!(
        manager.execute(coins, &pool_texts, Some(stored)).unwrap_err(),
        Error::Rebalance
    );
}

#[test]
fn rebalance_merges_everything_but_master_and_payment() {
    let manager = CoinManager::new(10, 3, 500_000_000, sponsor_addr());
    // Sponsor owns the master (10 SUI), a payment coin and two dust coins.
    let coins = vec![
        coin(1, 10_000_000_000),
        coin(2, 200_000_000),
        coin(3, 50_000_000),
        coin(4, 1_000),
    ];
    let (plan, master, persist) = manager.execute(coins, &vec![], None).unwrap();
    assert!(persist);
    assert_eq!(master.bytes, vec![1; 32]);
    assert_eq!(plan.master.id.bytes, vec![1; 32]);
    assert_eq!(plan.gas_payment.id.bytes, vec![2; 32]);
    let mut merged: Vec<Vec<u8>> = plan.merge_inputs.iter().map(|c| c.id.bytes.clone()).collect();
    merged.sort();
    assert_eq!(merged, vec![vec![3; 32], vec![4; 32]]);
    // Pool depth zero: the split refills the whole capacity.
    assert_eq!(plan.new_coin_count, 10);
    assert_eq!(plan.split_amount, 500_000_000);
}

#[test]
fn rebalance_aborts_without_a_payment_coin() {
    let manager = CoinManager::new(10, 3, 500_000_000, sponsor_addr());
    // Only the big coin and one dust coin: nothing left to pay with once
    // the big coin is the master.
    let coins = vec![coin(1, 10_000_000_000), coin(2, 50_000_000)];
    assert_eq!(manager.execute(coins, &vec![], None).unwrap_err(), Error::Rebalance);
}

#[test]
fn rebalance_needs_two_funded_coins() {
    let manager = CoinManager::new(10, 3, 500_000_000, sponsor_addr());
    let coins = vec![coin(1, 10_000_000_000), coin(2, 0)];
    assert_eq!(manager.execute(coins, &vec![], None).unwrap_err(), Error::Rebalance);
}

#[test]
fn rebalance_skips_pooled_coins() {
    let manager = CoinManager::new(10, 3, 500_000_000, sponsor_addr());
    let pooled = coin(3, 400_000_000);
    let pool_texts = vec![pooled.id.to_hex_text()];
    let coins = vec![
        coin(1, 10_000_000_000),
        coin(2, 200_000_000),
        pooled,
        coin(4, 1_000),
    ];
    let (plan, _, _) = manager.execute(coins, &pool_texts, None).unwrap();
    // The pooled coin is neither merged nor the payment.
    assert!(plan.merge_inputs.iter().all(|c| c.id.bytes != vec![3; 32]));
    assert_ne!(plan.gas_payment.id.bytes, vec![3; 32]);
    // Depth one: nine fresh coins bring the pool back to capacity.
    assert_eq!(plan.new_coin_count, 9);
}

#[test]
fn new_coins_get_store_keys_in_order() {
    let manager = CoinManager::new(10, 3, 500_000_000, sponsor_addr());
    let ids = vec![CoinId { bytes: vec![0xaa; 32] }, CoinId { bytes: vec![0xbb; 32] }];
    let keys = manager.process_new_coins(&ids);
    assert_eq!(keys.len(), 2);
    assert_eq!(keys[0], ids[0].gas_key());
    assert_eq!(keys[1], ids[1].gas_key());
}

#[test]
fn watermark_triggers_rebalance() {
    let manager = CoinManager::new(10, 3, 500_000_000, sponsor_addr());
    assert!(manager.should_rebalance(0));
    assert!(manager.should_rebalance(3));
    assert!(!manager.should_rebalance(4));
}

#[test]
fn gas_arithmetic_matches_the_cost_summary() {
    let summary = GasCostSummary {
        computation_cost: 1_000_000,
        storage_cost: 2_500_000,
        storage_rebate: 700_000,
    };
    assert_eq!(GasMeter::total_gas_used(&summary), 2_800_000);
    assert_eq!(GasMeter::total_gas_used_upper_bound(&summary), 3_500_000);
}

#[test]
fn response_errors_and_created_objects() {
    let failed = TxResponse {
        errors: vec![],
        effects: Some(TxEffects {
            status: ExecutionStatus::Failure("gas too low".to_string()),
            gas_used: GasCostSummary {
                computation_cost: 1,
                storage_cost: 2,
                storage_rebate: 0,
            },
        }),
        object_changes: None,
    };
    assert!(TxManager::has_errors(&failed));
    assert_eq!(TxManager::get_errors(&failed), vec!["gas too low".to_string()]);

    let reported = TxResponse {
        errors: vec!["quorum failed".to_string()],
        effects: None,
        object_changes: Some(vec![
            ObjectChange::Created(CoinId { bytes: vec![1; 32] }),
            ObjectChange::Other,
            ObjectChange::Created(CoinId { bytes: vec![2; 32] }),
        ]),
    };
    assert_eq!(TxManager::get_errors(&reported), vec!["quorum failed".to_string()]);
    let created = sui_sponsor::response::get_created_objects(&reported);
    assert_eq!(created.len(), 2);
    assert_eq!(created[0].bytes, vec![1; 32]);
    assert_eq!(created[1].bytes, vec![2; 32]);

    let clean = TxResponse { errors: vec![], effects: None, object_changes: None };
    assert!(!TxManager::has_errors(&clean));
}

#[test]
fn cors_origin_rule() {
    let cfg = CorsConfig {
        origin: vec!["https://example.org".to_string(), "https://app.example.org".to_string()],
    };
    assert!(cfg.origin_allowed(&"https://example.org".to_string()));
    assert!(!cfg.origin_allowed(&"https://evil.example".to_string()));

    let open = CorsConfig { origin: vec!["*".to_string()] };
    assert!(open.origin_allowed(&"https://anywhere.example".to_string()));
}

#[test]
fn extract_gas_object_ids_in_order() {
    let tx = TransactionData {
        sender: Address { bytes: vec![1; 32] },
        kind: TxKind::Programmable(vec![]),
        gas_data: GasData {
            payment: vec![
                CoinRef { id: CoinId { bytes: vec![5; 32] }, version: 1, digest: vec![] },
                CoinRef { id: CoinId { bytes: vec![6; 32] }, version: 2, digest: vec![] },
            ],
            owner: sponsor_addr(),
            price: 1,
            budget: 2,
        },
    };
    let ids = TxManager::extract_gas_objects_ids(&tx);
    assert_eq!(ids.len(), 2);
    assert_eq!(ids[0].bytes, vec![5; 32]);
    assert_eq!(ids[1].bytes, vec![6; 32]);
}

#[test]
fn error_codes_follow_the_taxonomy() {
    assert_eq!(Error::Decode.http_status(), 400);
    assert_eq!(Error::UnsupportedTransaction.http_status(), 422);
    assert_eq!(Error::PoolEmpty.http_status(), 503);
    assert_eq!(Error::Equivocation.http_status(), 500);
    assert_eq!(Error::Chain.http_status(), 502);
    assert_eq!(Error::Infra.http_status(), 503);
    assert_eq!(Error::Decode.message(), "Malformed request");
    assert_eq!(Error::Equivocation.message(), "Possible equivocation");
}
