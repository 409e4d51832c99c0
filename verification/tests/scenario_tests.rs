use ape_volume::accumulate::accumulate;
use ape_volume::events::{transfer_topic_bytes, Block, LogEntry};
use ape_volume::extract::{extract, ExtractError, MatchRecord};
use ape_volume::hex::hex_encode;
use ape_volume::meta::{MetaTable, TokenMeta};
use ape_volume::pipeline::process_block;
use ape_volume::project::project;
use ape_volume::store::VolumeStore;

fn transfer_log(address: Vec<u8>) -> LogEntry {
    LogEntry {
        address,
        topics: vec![transfer_topic_bytes(), vec![0x11; 32], vec![0x22; 32]],
        data: vec![0; 32],
    }
}

fn other_log(address: Vec<u8>) -> LogEntry {
    LogEntry {
        address,
        topics: vec![vec![0x99; 32], vec![0x11; 32], vec![0x22; 32]],
        data: vec![0; 32],
    }
}

fn sample_table() -> MetaTable {
    let mut table = MetaTable::new();
    table.push(TokenMeta {
        address: vec![0xaa; 20],
        name: b"Bored Ape".to_vec(),
        symbol: b"BAYC".to_vec(),
    });
    table.push(TokenMeta {
        address: vec![0xbb; 20],
        name: b"USD Coin".to_vec(),
        symbol: b"USDC".to_vec(),
    });
    table.push(TokenMeta {
        address: vec![0xcc; 20],
        name: b"CryptoPunk".to_vec(),
        symbol: b"PUNK".to_vec(),
    });
    table
}

#[test]
fn ape_transfer_flows_through_all_three_stages() {
    let block = Block {
        logs: vec![transfer_log(vec![0xaa; 20]), transfer_log(vec![0xbb; 20])],
    };
    let table = sample_table();
    let batch = extract(&block, &table).unwrap();
    assert_eq!(batch.len(), 1);
    let hex_aa = hex_encode(&vec![0xaa; 20]);
    assert_eq!(batch[0].address, hex_aa);
    assert_eq!(batch[0].name, b"Bored Ape".to_vec());
    assert_eq!(batch[0].symbol, b"BAYC".to_vec());

    let mut store = VolumeStore::new();
    accumulate(&batch, &mut store);
    assert_eq!(store.get(&hex_aa), Some(1));
    assert_eq!(store.get(&hex_encode(&vec![0xbb; 20])), None);

    let rows = project(&batch, &store);
    assert_eq!(rows.len(), 1);
    assert_eq!(rows[0].table, b"TransferVolume".to_vec());
    assert_eq!(rows[0].row_key, hex_aa);
    assert_eq!(rows[0].name, b"Bored Ape".to_vec());
    assert_eq!(rows[0].symbol, b"BAYC".to_vec());
    assert_eq!(rows[0].address, hex_aa);
}

#[test]
fn duplicate_address_yields_two_records_and_two_rows() {
    let block = Block {
        logs: vec![transfer_log(vec![0xaa; 20]), transfer_log(vec![0xaa; 20])],
    };
    let table = sample_table();
    let batch = extract(&block, &table).unwrap();
    assert_eq!(batch.len(), 2);
    assert_eq!(batch[0], batch[1]);

    let mut store = VolumeStore::new();
    accumulate(&batch, &mut store);
    let hex_aa = hex_encode(&vec![0xaa; 20]);
    assert_eq!(store.get(&hex_aa), Some(2));

    let rows = project(&batch, &store);
    assert_eq!(rows.len(), 2);
    assert_eq!(rows[0], rows[1]);
    assert_eq!(rows[0].row_key, hex_aa);
}

#[test]
fn non_ape_name_is_excluded_from_every_stage() {
    let block = Block {
        logs: vec![transfer_log(vec![0xcc; 20])],
    };
    let table = sample_table();
    let batch = extract(&block, &table).unwrap();
    assert_eq!(batch.len(), 0);

    let mut store = VolumeStore::new();
    accumulate(&batch, &mut store);
    assert_eq!(store.get(&hex_encode(&vec![0xcc; 20])), None);

    let rows = project(&batch, &store);
    assert_eq!(rows.len(), 0);
}

#[test]
fn unresolved_metadata_defaults_to_empty_and_fails_the_filter() {
    let block = Block {
        logs: vec![transfer_log(vec![0xdd; 20])],
    };
    let table = sample_table();
    let batch = extract(&block, &table).unwrap();
    assert_eq!(batch.len(), 0);
}

#[test]
fn malformed_transfer_log_aborts_the_block() {
    let block = Block {
        logs: vec![
            transfer_log(vec![0xaa; 20]),
            LogEntry {
                address: vec![0xbb; 20],
                topics: vec![transfer_topic_bytes(), vec![0x11; 32]],
                data: vec![0; 32],
            },
        ],
    };
    let table = sample_table();
    assert_eq!(extract(&block, &table), Err(ExtractError::DecodeFault));
}

#[test]
fn non_transfer_logs_are_skipped_not_faulted() {
    let block = Block {
        logs: vec![
            other_log(vec![0xaa; 20]),
            LogEntry {
                address: vec![0xaa; 20],
                topics: Vec::new(),
                data: Vec::new(),
            },
        ],
    };
    let table = sample_table();
    let batch = extract(&block, &table).unwrap();
    assert_eq!(batch.len(), 0);
}

#[test]
fn extract_is_deterministic_on_the_same_inputs() {
    let block = Block {
        logs: vec![
            transfer_log(vec![0xaa; 20]),
            transfer_log(vec![0xbb; 20]),
            transfer_log(vec![0xaa; 20]),
        ],
    };
    let table = sample_table();
    assert_eq!(extract(&block, &table), extract(&block, &table));
}

#[test]
fn accumulation_is_order_independent() {
    let rec = |addr: &[u8], name: &[u8]| MatchRecord {
        address: addr.to_vec(),
        name: name.to_vec(),
        symbol: b"S".to_vec(),
    };
    let forward = vec![rec(b"aa", b"Ape A"), rec(b"bb", b"Ape B"), rec(b"aa", b"Ape A")];
    let reversed = vec![rec(b"aa", b"Ape A"), rec(b"bb", b"Ape B"), rec(b"aa", b"Ape A")]
        .into_iter()
        .rev()
        .collect::<Vec<_>>();

    let mut s1 = VolumeStore::new();
    accumulate(&forward, &mut s1);
    let mut s2 = VolumeStore::new();
    accumulate(&reversed, &mut s2);

    assert_eq!(s1.get(&b"aa".to_vec()), Some(2));
    assert_eq!(s2.get(&b"aa".to_vec()), Some(2));
    assert_eq!(s1.get(&b"bb".to_vec()), Some(1));
    assert_eq!(s2.get(&b"bb".to_vec()), Some(1));
}

#[test]
fn counters_total_matching_records_across_blocks() {
    let table = sample_table();
    let mut store = VolumeStore::new();
    let hex_aa = hex_encode(&vec![0xaa; 20]);

    let b1 = Block {
        logs: vec![transfer_log(vec![0xaa; 20]), transfer_log(vec![0xbb; 20])],
    };
    let rows = process_block(&b1, &table, &mut store).unwrap();
    assert_eq!(rows.len(), 1);
    assert_eq!(store.get(&hex_aa), Some(1));

    let b2 = Block {
        logs: vec![transfer_log(vec![0xaa; 20]), transfer_log(vec![0xaa; 20])],
    };
    let rows = process_block(&b2, &table, &mut store).unwrap();
    assert_eq!(rows.len(), 2);
    assert_eq!(store.get(&hex_aa), Some(3));
}

#[test]
fn projection_skips_records_without_a_bound_counter() {
    let batch = vec![MatchRecord {
        address: b"aa".to_vec(),
        name: b"Bored Ape".to_vec(),
        symbol: b"BAYC".to_vec(),
    }];
    let empty = VolumeStore::new();
    assert_eq!(project(&batch, &empty).len(), 0);

    let mut bound = VolumeStore::new();
    bound.add(&b"aa".to_vec(), 1);
    let rows = project(&batch, &bound);
    assert_eq!(rows.len(), 1);
    assert_eq!(rows[0].name, b"Bored Ape".to_vec());
    assert_eq!(rows[0].symbol, b"BAYC".to_vec());
    assert_eq!(rows[0].address, b"aa".to_vec());
}

#[test]
fn decode_fault_leaves_the_store_untouched() {
    let table = sample_table();
    let mut store = VolumeStore::new();
    store.add(&b"aa".to_vec(), 7);
    let block = Block {
        logs: vec![LogEntry {
            address: vec![0xaa; 20],
            topics: vec![transfer_topic_bytes()],
            data: Vec::new(),
        }],
    };
    assert_eq!(
        process_block(&block, &table, &mut store),
        Err(ExtractError::DecodeFault)
    );
    assert_eq!(store.get(&b"aa".to_vec()), Some(7));
}
