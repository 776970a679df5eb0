use sui_sponsor::coin::CoinId;
use sui_sponsor::codec::NewCoinObject;
use sui_sponsor::errors::Error;
use sui_sponsor::hexfmt::{bytes_to_hex, hex_to_bytes};
use sui_sponsor::wallet::Wallet;
use blake2::Digest;
use ed25519_dalek::Signer;

#[test]
fn hex_encodes_lower_case() {
    assert_eq!(bytes_to_hex(&vec![0xbe, 0xef]), b"beef".to_vec());
    assert_eq!(bytes_to_hex(&vec![0x00, 0x0a, 0x10]), b"000a10".to_vec());
    assert_eq!(bytes_to_hex(&vec![]), Vec::<u8>::new());
}

#[test]
fn hex_round_trips() {
    let bytes = vec![0u8, 1, 127, 128, 255, 16, 42];
    let hex = bytes_to_hex(&bytes);
    assert_eq!(hex_to_bytes(&hex).unwrap(), bytes);
}

#[test]
fn hex_rejects_odd_and_foreign_digits() {
    assert!(hex_to_bytes(&b"abc".to_vec()).is_none());
    assert!(hex_to_bytes(&b"zz".to_vec()).is_none());
    // Upper case is not the canonical form.
    assert!(hex_to_bytes(&b"BE".to_vec()).is_none());
}

#[test]
fn coin_id_text_round_trips() {
    let id = CoinId { bytes: (0u8..32).collect() };
    let text = id.to_hex_text();
    assert_eq!(text.len(), 66);
    assert!(text.starts_with(b"0x"));
    let back = CoinId::from_hex_text(&text).unwrap();
    assert_eq!(back.bytes, id.bytes);
}

#[test]
fn coin_id_text_is_strict() {
    // Too short, wrong prefix, bad digit.
    assert!(CoinId::from_hex_text(&b"0x00".to_vec()).is_none());
    let id = CoinId { bytes: vec![0xab; 32] };
    let mut text = id.to_hex_text();
    text[0] = b'1';
    assert!(CoinId::from_hex_text(&text).is_none());
    let mut text2 = id.to_hex_text();
    text2[2] = b'G';
    assert!(CoinId::from_hex_text(&text2).is_none());
}

#[test]
fn gas_key_layout() {
    let id = CoinId { bytes: vec![0; 32] };
    let mut expected = b"gas:0x".to_vec();
    expected.extend(vec![b'0'; 64]);
    assert_eq!(id.gas_key(), expected);
}

#[test]
fn record_round_trips() {
    let id = CoinId { bytes: vec![0xcd; 32] };
    let record = NewCoinObject { id: id.to_hex_text() };
    let bytes = record.encode();
    let back = NewCoinObject::decode(&bytes).unwrap();
    assert_eq!(back.id, record.id);
}

#[test]
fn record_layout_is_borsh() {
    // A record is laid out exactly as borsh serializes its single string
    // field: four little-endian length bytes, then the text.
    let text = "0xdeadbeef".to_string();
    let record = NewCoinObject { id: text.as_bytes().to_vec() };
    assert_eq!(record.encode(), borsh::to_vec(&text).unwrap());
}

#[test]
fn record_rejects_bad_framing() {
    assert_eq!(NewCoinObject::decode(&vec![1, 0, 0]).unwrap_err(), Error::Decode);
    // Length prefix claims more than the body holds.
    assert_eq!(NewCoinObject::decode(&vec![5, 0, 0, 0, b'a']).unwrap_err(), Error::Decode);
    // And less.
    assert_eq!(NewCoinObject::decode(&vec![0, 0, 0, 0, b'a']).unwrap_err(), Error::Decode);
    // Empty identifier is fine.
    assert_eq!(NewCoinObject::decode(&vec![0, 0, 0, 0]).unwrap().id, Vec::<u8>::new());
}

#[test]
fn wallet_signs_the_chain_layout() {
    let secret = vec![42u8; 32];
    let wallet = Wallet::new(secret.clone());
    let message = b"\0\0\0some transaction bytes".to_vec();
    let sig = wallet.sign(&message);

    // flag + 64 signature bytes + 32 public-key bytes
    assert_eq!(sig.len(), 97);
    assert_eq!(sig[0], 0);

    // The same computation spelled out with the underlying crates.
    let mut key = [0u8; 32];
    key.copy_from_slice(&secret);
    let signing_key = ed25519_dalek::SigningKey::from_bytes(&key);
    let digest = blake2::Blake2b256::digest(&message);
    let expected = signing_key.sign(&digest).to_bytes().to_vec();
    assert_eq!(&sig[1..65], expected.as_slice());
    assert_eq!(&sig[65..], signing_key.verifying_key().to_bytes().as_slice());

    // Signing is deterministic.
    assert_eq!(wallet.sign(&message), sig);
}

#[test]
fn wallet_address_hashes_flag_and_public_key() {
    let secret = vec![9u8; 32];
    let wallet = Wallet::new(secret);
    let address = wallet.address();
    assert_eq!(address.len(), 32);

    let mut preimage = vec![0u8];
    preimage.extend(wallet.public());
    let expected = blake2::Blake2b256::digest(&preimage).to_vec();
    assert_eq!(address, expected);
}
