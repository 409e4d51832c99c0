use ape_volume::bytes::{contains_subseq, copy_bytes};
use ape_volume::events::transfer_topic_bytes;
use ape_volume::extract::matches_name;
use ape_volume::hex::hex_encode;
use ape_volume::meta::{MetaTable, TokenMeta};
use ape_volume::project::table_name_bytes;
use ape_volume::store::VolumeStore;

#[test]
fn hex_encode_renders_lowercase_pairs() {
    let bytes: Vec<u8> = vec![0xaa, 0x0f, 0x00, 0xde];
    assert_eq!(hex_encode(&bytes), b"aa0f00de".to_vec());
}

#[test]
fn hex_encode_of_empty_is_empty() {
    let bytes: Vec<u8> = Vec::new();
    assert_eq!(hex_encode(&bytes), Vec::<u8>::new());
}

#[test]
fn hex_encode_covers_all_digits() {
    let bytes: Vec<u8> = vec![0x01, 0x23, 0x45, 0x67, 0x89, 0xab, 0xcd, 0xef];
    assert_eq!(hex_encode(&bytes), b"0123456789abcdef".to_vec());
}

#[test]
fn copy_bytes_is_identity() {
    let v: Vec<u8> = vec![1, 2, 3];
    assert_eq!(copy_bytes(&v), v);
}

#[test]
fn contains_subseq_finds_inner_run() {
    assert!(contains_subseq(&b"abcdef".to_vec(), &b"cde".to_vec()));
    assert!(contains_subseq(&b"abc".to_vec(), &b"abc".to_vec()));
    assert!(!contains_subseq(&b"abc".to_vec(), &b"cb".to_vec()));
}

#[test]
fn contains_subseq_empty_needle_always_holds() {
    assert!(contains_subseq(&b"abc".to_vec(), &Vec::new()));
    assert!(contains_subseq(&Vec::new(), &Vec::new()));
}

#[test]
fn contains_subseq_needle_longer_than_hay_fails() {
    assert!(!contains_subseq(&b"ab".to_vec(), &b"abc".to_vec()));
}

#[test]
fn name_filter_is_case_sensitive_substring() {
    assert!(matches_name(&b"Bored Ape".to_vec()));
    assert!(matches_name(&b"Ape".to_vec()));
    assert!(matches_name(&b"GrApe Juice".to_vec()));
    assert!(!matches_name(&b"ape".to_vec()));
    assert!(!matches_name(&b"CryptoPunk".to_vec()));
    assert!(!matches_name(&Vec::new()));
}

#[test]
fn transfer_topic_is_the_known_signature_hash() {
    let topic = transfer_topic_bytes();
    assert_eq!(topic.len(), 32);
    assert_eq!(
        hex_encode(&topic),
        b"ddf252ad1be2c89b69c2b068fc378daa952ba7f163c4a11628f55a4df523b3ef".to_vec()
    );
}

#[test]
fn table_name_is_transfer_volume() {
    assert_eq!(table_name_bytes(), b"TransferVolume".to_vec());
}

#[test]
fn meta_table_resolves_first_match_or_defaults() {
    let mut table = MetaTable::new();
    table.push(TokenMeta {
        address: vec![0xaa; 20],
        name: b"Bored Ape".to_vec(),
        symbol: b"BAYC".to_vec(),
    });
    table.push(TokenMeta {
        address: vec![0xaa; 20],
        name: b"Shadowed".to_vec(),
        symbol: b"SHD".to_vec(),
    });
    let (name, symbol) = table.resolve(&vec![0xaa; 20]);
    assert_eq!(name, b"Bored Ape".to_vec());
    assert_eq!(symbol, b"BAYC".to_vec());
    let (name, symbol) = table.resolve(&vec![0xbb; 20]);
    assert_eq!(name, Vec::<u8>::new());
    assert_eq!(symbol, Vec::<u8>::new());
}

#[test]
fn store_counts_per_key_from_zero() {
    let mut store = VolumeStore::new();
    let ka = b"aa".to_vec();
    let kb = b"bb".to_vec();
    assert_eq!(store.get(&ka), None);
    store.add(&ka, 1);
    assert_eq!(store.get(&ka), Some(1));
    store.add(&ka, 1);
    assert_eq!(store.get(&ka), Some(2));
    store.add(&kb, 5);
    assert_eq!(store.get(&kb), Some(5));
    assert_eq!(store.get(&ka), Some(2));
}
