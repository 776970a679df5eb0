use sui_sponsor::admission::{is_tx_supported, GasData, TransactionData, TxCommand, TxKind};
use sui_sponsor::coin::{Address, CoinId, CoinRef};
use sui_sponsor::json::{parse_dec, u64_to_dec};

#[test]
fn decimals_round_trip() {
    for n in [0u64, 1, 9, 10, 99, 100, 1_000_000, 150_000_000, u64::MAX] {
        let text = u64_to_dec(n);
        assert_eq!(text, n.to_string().into_bytes());
        assert_eq!(parse_dec(&text), Some(n));
    }
}

#[test]
fn decimal_parse_is_strict() {
    assert_eq!(parse_dec(&b"".to_vec()), None);
    assert_eq!(parse_dec(&b"007".to_vec()), None);
    assert_eq!(parse_dec(&b"1a".to_vec()), None);
    // One past u64::MAX.
    assert_eq!(parse_dec(&b"18446744073709551616".to_vec()), None);
    assert_eq!(parse_dec(&b"18446744073709551615".to_vec()), Some(u64::MAX));
    assert_eq!(parse_dec(&b"0".to_vec()), Some(0));
}

#[test]
fn gas_data_json_is_canonical() {
    let gas_data = GasData {
        payment: vec![CoinRef {
            id: CoinId { bytes: vec![0xab; 32] },
            version: 7,
            digest: vec![0x01, 0x02],
        }],
        owner: Address { bytes: vec![0xcd; 32] },
        price: 1000,
        budget: 50_000_000,
    };
    let text = String::from_utf8(gas_data.to_json()).unwrap();
    let id_hex: String = std::iter::repeat("ab").take(32).collect();
    let owner_hex: String = std::iter::repeat("cd").take(32).collect();
    let expected = format!(
        "{{\"payment\":[{{\"id\":\"0x{}\",\"version\":7,\"digest\":\"0102\"}}],\"owner\":\"0x{}\",\"price\":1000,\"budget\":50000000}}",
        id_hex, owner_hex
    );
    assert_eq!(text, expected);
}

#[test]
fn gas_data_json_parses_as_json() {
    let gas_data = GasData {
        payment: vec![
            CoinRef { id: CoinId { bytes: vec![1; 32] }, version: 1, digest: vec![9] },
            CoinRef { id: CoinId { bytes: vec![2; 32] }, version: 2, digest: vec![] },
        ],
        owner: Address { bytes: vec![3; 32] },
        price: 42,
        budget: 9_000,
    };
    let text = String::from_utf8(gas_data.to_json()).unwrap();
    let value: serde_json::Value = serde_json::from_str(&text).unwrap();
    assert_eq!(value["price"], serde_json::Value::from(42u64));
    assert_eq!(value["budget"], serde_json::Value::from(9000u64));
    assert_eq!(value["payment"].as_array().unwrap().len(), 2);
    assert_eq!(value["payment"][0]["version"], serde_json::Value::from(1u64));
    assert_eq!(value["payment"][1]["digest"], serde_json::Value::from(""));
    let owner_hex: String = std::iter::repeat("03").take(32).collect();
    assert_eq!(value["owner"], serde_json::Value::from(format!("0x{}", owner_hex)));
}

#[test]
fn gas_data_json_round_trips() {
    let gas_data = GasData {
        payment: vec![
            CoinRef { id: CoinId { bytes: vec![0xab; 32] }, version: 7, digest: vec![1, 2] },
            CoinRef { id: CoinId { bytes: vec![0x01; 32] }, version: 9, digest: vec![] },
        ],
        owner: Address { bytes: vec![0xcd; 32] },
        price: 1000,
        budget: 50_000_000,
    };
    let text = gas_data.to_json();
    let back = GasData::from_json(&text).unwrap();
    assert_eq!(back.payment.len(), 2);
    assert_eq!(back.payment[0].id.bytes, vec![0xab; 32]);
    assert_eq!(back.payment[0].version, 7);
    assert_eq!(back.payment[0].digest, vec![1, 2]);
    assert_eq!(back.payment[1].id.bytes, vec![0x01; 32]);
    assert_eq!(back.owner.bytes, vec![0xcd; 32]);
    assert_eq!(back.price, 1000);
    assert_eq!(back.budget, 50_000_000);

    // An empty payment list round-trips too.
    let empty = GasData {
        payment: vec![],
        owner: Address { bytes: vec![0xcd; 32] },
        price: 1,
        budget: 2,
    };
    let back = GasData::from_json(&empty.to_json()).unwrap();
    assert!(back.payment.is_empty());
    assert_eq!(back.price, 1);
}

#[test]
fn gas_data_json_decode_is_strict() {
    assert!(GasData::from_json(&b"{}".to_vec()).is_none());
    assert!(GasData::from_json(&Vec::new()).is_none());
    let gas_data = GasData {
        payment: vec![],
        owner: Address { bytes: vec![3; 32] },
        price: 5,
        budget: 6,
    };
    let mut text = gas_data.to_json();
    // Trailing garbage is refused.
    text.push(b' ');
    assert!(GasData::from_json(&text).is_none());
}

#[test]
fn admission_ignores_gas_fields() {
    let make = |price: u64, budget: u64, payment: Vec<CoinRef>| TransactionData {
        sender: Address { bytes: vec![1; 32] },
        kind: TxKind::Programmable(vec![TxCommand::SplitCoins, TxCommand::TransferObjects]),
        gas_data: GasData { payment, owner: Address { bytes: vec![2; 32] }, price, budget },
    };
    // The same transaction before and after the sponsor fills the gas
    // section in: admitted both times.
    let before = make(0, 0, vec![]);
    let after = make(
        1000,
        50_000_000,
        vec![CoinRef { id: CoinId { bytes: vec![5; 32] }, version: 3, digest: vec![7] }],
    );
    assert!(is_tx_supported(&before));
    assert!(is_tx_supported(&after));
}
