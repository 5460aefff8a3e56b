use std::collections::{HashMap, HashSet};

use bells_indexer::block_info::BlockInfo;
use bells_indexer::config::{
    coin_name, jubilee_height, normalize_blockchain, parse_network, start_height, str_eq,
    ConfigError, Network,
};
use bells_indexer::indexer::{
    dedup_addresses, handle_block, outpoint_fullhash_to_address, reorg_restore_height,
    script_fullhash, TxOutputInfo,
};
use bells_indexer::processed_data::{DataToWrite, KeyWrite, ProcessedData, WriteBatch};
use bells_indexer::rest::{page_limit, txid_outpoint_range, RequestError, MAX_PAGE_LIMIT};
use bells_indexer::types::{OutPoint, TxOut};

fn op(n: u8) -> OutPoint {
    OutPoint { txid: [n; 32], vout: n as u32 }
}

fn apply<K: std::hash::Hash + Eq + Clone, V: Clone>(m: &mut HashMap<K, V>, ws: &[KeyWrite<K, V>]) {
    for w in ws {
        match w {
            KeyWrite::Put(k, v) => {
                m.insert(k.clone(), v.clone());
            }
            KeyWrite::Remove(k) => {
                m.remove(k);
            }
        }
    }
}

#[test]
fn info_record_writes_last_block_and_info() {
    let mut batch = WriteBatch::new();
    let info = BlockInfo { hash: [1u8; 32], created: 5 };
    ProcessedData::Info { block_number: 10, block_info: info }.write(&mut batch);
    assert_eq!(batch.last_block.len(), 1);
    assert!(matches!(batch.last_block[0], KeyWrite::Put((), 10)));
    assert!(matches!(batch.block_info[0], KeyWrite::Put(10, b) if b == info));
    assert!(batch.prevouts.is_empty());
}

#[test]
fn removed_and_written_key_ends_up_written() {
    let out = TxOut { value: 3, script_pubkey: vec![0x51] };
    let mut table: HashMap<OutPoint, TxOut> = HashMap::new();
    table.insert(op(1), TxOut { value: 1, script_pubkey: vec![] });
    table.insert(op(2), TxOut { value: 2, script_pubkey: vec![] });
    let mut batch = WriteBatch::new();
    ProcessedData::Prevouts { to_write: vec![(op(1), out.clone())], to_remove: vec![op(1), op(2)] }
        .write(&mut batch);
    assert_eq!(batch.prevouts.len(), 3);
    apply(&mut table, &batch.prevouts);
    assert_eq!(table.len(), 1);
    assert_eq!(table.get(&op(1)), Some(&out));
    assert_eq!(table.get(&op(2)), None);
}

#[test]
fn last_entry_for_a_key_wins() {
    let mut batch = WriteBatch::new();
    let mut a = HashSet::new();
    a.insert(1u64);
    let mut b = HashSet::new();
    b.insert(2u64);
    ProcessedData::InscriptionOffset { to_remove: vec![], to_write: vec![(op(4), a), (op(4), b.clone())] }
        .write(&mut batch);
    let mut table = HashMap::new();
    apply(&mut table, &batch.outpoint_to_inscription_offsets);
    assert_eq!(table.get(&op(4)), Some(&b));
}

#[test]
fn records_are_written_in_order() {
    let mut data = DataToWrite::default();
    data.processed.push(ProcessedData::FullHash { addresses: vec![([1u8; 32], "a".to_string())] });
    data.processed.push(ProcessedData::FullHash { addresses: vec![([1u8; 32], "b".to_string())] });
    data.processed.push(ProcessedData::InscriptionPartials { to_remove: vec![op(1)], to_write: vec![] });
    let mut batch = WriteBatch::new();
    data.write_all(&mut batch);
    let mut names = HashMap::new();
    apply(&mut names, &batch.fullhash_to_address);
    assert_eq!(names.get(&[1u8; 32]).map(|s| s.as_str()), Some("b"));
    assert_eq!(batch.outpoint_to_partials.len(), 1);
}

const SHA256D_EMPTY: [u8; 32] = [
    0x5d, 0xf6, 0xe0, 0xe2, 0x76, 0x13, 0x59, 0xd3, 0x0a, 0x82, 0x75, 0x05, 0x8e, 0x29, 0x9f, 0xcc,
    0x03, 0x81, 0x53, 0x45, 0x45, 0xf5, 0x5c, 0xf4, 0x3e, 0x41, 0x98, 0x3f, 0x5d, 0x4c, 0x94, 0x56,
];

#[test]
fn script_hash_is_double_sha256() {
    assert_eq!(script_fullhash(&[]), SHA256D_EMPTY);
}

#[test]
fn dedup_keeps_last_address_per_hash() {
    let r = dedup_addresses(vec![
        ([1u8; 32], "x".to_string()),
        ([2u8; 32], "y".to_string()),
        ([1u8; 32], "z".to_string()),
    ]);
    assert_eq!(r.len(), 2);
    let m: HashMap<_, _> = r.into_iter().collect();
    assert_eq!(m[&[1u8; 32]], "z");
    assert_eq!(m[&[2u8; 32]], "y");
}

#[test]
fn only_outputs_with_addresses_are_named() {
    let outputs = vec![
        TxOutputInfo { script_pubkey: vec![], address: Some("addr1".to_string()) },
        TxOutputInfo { script_pubkey: vec![0x6a], address: None },
        TxOutputInfo { script_pubkey: vec![], address: Some("addr2".to_string()) },
    ];
    let r = outpoint_fullhash_to_address(&outputs);
    assert_eq!(r, vec![(SHA256D_EMPTY, "addr2".to_string())]);
}

#[test]
fn block_records_come_in_order() {
    let mut data = DataToWrite::default();
    let outputs = vec![TxOutputInfo { script_pubkey: vec![], address: Some("a".to_string()) }];
    let prevouts = vec![ProcessedData::Prevouts { to_write: vec![], to_remove: vec![op(3)] }];
    let due = handle_block(&mut data, 7, [2u8; 32], 99, &outputs, prevouts, 8);
    assert!(!due);
    assert_eq!(data.processed.len(), 3);
    assert!(matches!(
        &data.processed[0],
        ProcessedData::Info { block_number: 7, block_info } if block_info.created == 99 && block_info.hash == [2u8; 32]
    ));
    assert!(matches!(&data.processed[1], ProcessedData::Prevouts { .. }));
    assert!(matches!(&data.processed[2], ProcessedData::FullHash { addresses } if addresses.len() == 1));
    let mut more = DataToWrite::default();
    assert!(handle_block(&mut more, 8, [0u8; 32], 0, &vec![], vec![], 8));
    assert_eq!(more.processed.len(), 2);
}

#[test]
fn reorg_restore_height_saturates() {
    assert_eq!(reorg_restore_height(Some(100), 3), 97);
    assert_eq!(reorg_restore_height(Some(2), 3), 0);
    assert_eq!(reorg_restore_height(None, 3), 0);
}

#[test]
fn network_setting() {
    assert_eq!(parse_network(None), Ok(Network::Bellscoin));
    assert_eq!(parse_network(Some("mainnet")), Ok(Network::Bellscoin));
    assert_eq!(parse_network(Some("testnet")), Ok(Network::Testnet));
    assert_eq!(parse_network(Some("signet")), Ok(Network::Signet));
    assert_eq!(parse_network(Some("regtest")), Ok(Network::Regtest));
    assert_eq!(parse_network(Some("bellscoin")), Err(ConfigError::UnknownNetwork));
}

#[test]
fn heights_per_chain() {
    assert_eq!(jubilee_height(Network::Bellscoin, "bells"), 133_000);
    assert_eq!(jubilee_height(Network::Testnet, "doge"), usize::MAX);
    assert_eq!(jubilee_height(Network::Testnet, "bells"), 0);
    assert_eq!(start_height(Network::Bellscoin, "bells"), 26_371);
    assert_eq!(start_height(Network::Bellscoin, "doge"), 4_609_001);
    assert_eq!(start_height(Network::Testnet, "doge"), 4_260_001);
    assert_eq!(start_height(Network::Regtest, "doge"), 0);
    assert_eq!(start_height(Network::Testnet, "bells"), 0);
}

#[test]
fn coin_names() {
    assert_eq!(coin_name("bells", Network::Bellscoin), "bellscoin");
    assert_eq!(coin_name("bells", Network::Testnet), "bellscoin-testnet");
    assert_eq!(coin_name("doge", Network::Bellscoin), "dogecoin");
    assert_eq!(coin_name("doge", Network::Testnet), "dogecoin-testnet");
    assert_eq!(coin_name("doge", Network::Signet), "bellscoin");
    assert_eq!(coin_name("ltc", Network::Bellscoin), "bellscoin");
}

#[test]
fn chain_name_is_lowercased() {
    assert_eq!(normalize_blockchain("BeLLs"), "bells");
    assert!(str_eq("doge", "doge"));
    assert!(!str_eq("doge", "dog"));
}

#[test]
fn page_limits() {
    assert_eq!(page_limit(None), Ok(MAX_PAGE_LIMIT));
    assert_eq!(page_limit(Some(100)), Ok(100));
    assert_eq!(page_limit(Some(5)), Ok(5));
    assert_eq!(page_limit(Some(101)), Err(RequestError::LimitExceeded));
}

#[test]
fn txid_range_bounds() {
    let r = txid_outpoint_range([6u8; 32]);
    assert_eq!(r.start, OutPoint { txid: [6u8; 32], vout: 0 });
    assert_eq!(r.end, OutPoint { txid: [6u8; 32], vout: u32::MAX });
}

fn consensus_key(op: OutPoint) -> Vec<u8> {
    bellscoin::consensus::serialize(&bellscoin::OutPoint {
        txid: <bellscoin::Txid as bellscoin::hashes::Hash>::from_byte_array(op.txid),
        vout: op.vout,
    })
}

#[test]
fn txid_range_covers_outputs_but_the_last_index() {
    let r = txid_outpoint_range([6u8; 32]);
    let (lo, hi) = (consensus_key(r.start), consensus_key(r.end));
    let inside = |op: OutPoint| {
        let k = consensus_key(op);
        lo <= k && k < hi
    };
    assert!(inside(OutPoint { txid: [6u8; 32], vout: 0 }));
    assert!(inside(OutPoint { txid: [6u8; 32], vout: 70_000 }));
    assert!(!inside(OutPoint { txid: [6u8; 32], vout: u32::MAX }));
    assert!(!inside(OutPoint { txid: [7u8; 32], vout: 1 }));
    assert!(!inside(OutPoint { txid: [5u8; 32], vout: 1 }));
}
