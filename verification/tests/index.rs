use utxo_index::api::{get_balance, get_utxos, handle_request, parse_u64, UTXORes};
use utxo_index::block::Block;
use utxo_index::codec::{make_addr_count_key, make_addr_slot_key, u32_to_le, u64_to_le};
use utxo_index::driver::{next_action, DriverAction};
use utxo_index::ext::sha256d;
use utxo_index::rewind::{Rewind, RewindEntry};
use utxo_index::store::Store;
use utxo_index::utxo::{read_addr_len, UTXO, UTXOID};
use utxo_index::IndexError;

const P2PKH: u8 = 0x00;
const P2SH: u8 = 0x05;

fn addr(tag: u8) -> Vec<u8> {
    let mut a = vec![P2PKH];
    a.extend(std::iter::repeat(tag).take(20));
    a
}

fn addr_b58(a: &[u8]) -> Vec<u8> {
    bitcoin::base58::encode_check(a).into_bytes()
}

fn p2pkh_script(hash20: &[u8]) -> Vec<u8> {
    let mut s = vec![0x76, 0xa9, 0x14];
    s.extend_from_slice(hash20);
    s.push(0x88);
    s.push(0xac);
    s
}

fn varint(n: u64) -> Vec<u8> {
    if n < 0xfd {
        vec![n as u8]
    } else if n <= 0xffff {
        vec![0xfd, (n & 0xff) as u8, ((n >> 8) & 0xff) as u8]
    } else {
        let mut v = vec![0xfe];
        v.extend_from_slice(&(n as u32).to_le_bytes());
        v
    }
}

fn tx_bytes(inputs: &[(Vec<u8>, u32)], outputs: &[(u64, Vec<u8>)]) -> Vec<u8> {
    let mut t = 1u32.to_le_bytes().to_vec();
    t.extend(varint(inputs.len() as u64));
    for (txid, vout) in inputs {
        t.extend_from_slice(txid);
        t.extend_from_slice(&vout.to_le_bytes());
        t.extend(varint(0));
        t.extend_from_slice(&0xffffffffu32.to_le_bytes());
    }
    t.extend(varint(outputs.len() as u64));
    for (value, script) in outputs {
        t.extend_from_slice(&value.to_le_bytes());
        t.extend(varint(script.len() as u64));
        t.extend_from_slice(script);
    }
    t.extend_from_slice(&0u32.to_le_bytes());
    t
}

fn coinbase_input() -> (Vec<u8>, u32) {
    (vec![0u8; 32], 0xffffffff)
}

fn block_bytes(txs: &[Vec<u8>]) -> Vec<u8> {
    let mut b = 1u32.to_le_bytes().to_vec();
    b.extend_from_slice(&[0u8; 76]);
    b.extend(varint(txs.len() as u64));
    for t in txs {
        b.extend_from_slice(t);
    }
    b
}

fn txid_of(tx: &[u8]) -> Vec<u8> {
    sha256d(tx)
}

fn exec_block(db: &mut Store, rewind: &mut Rewind, idx: u32, raw: &[u8]) {
    let b = Block::from_slice(raw).unwrap();
    b.exec(db, idx, rewind, P2PKH, P2SH).unwrap();
}

fn undo_block(db: &mut Store, rewind: &mut Rewind, idx: u32, raw: &[u8]) {
    let b = Block::from_slice(raw).unwrap();
    let fetched: Vec<(Vec<u8>, Vec<u8>)> = Vec::new();
    b.undo(db, idx, rewind, &fetched, P2PKH, P2SH).unwrap();
}

fn balance_of(db: &Store, a: &[u8]) -> u64 {
    get_balance(db, &addr_b58(a)).unwrap()
}

fn len_of(db: &Store, a: &[u8]) -> u32 {
    read_addr_len(db, a)
}

#[test]
fn coinbase_block_indexes_one_utxo() {
    // One coinbase tx paying 50 BTC p2pkh to address A1.
    let a1 = addr(0x11);
    let cb = tx_bytes(&[coinbase_input()], &[(5_000_000_000, p2pkh_script(&a1[1..]))]);
    let blk = block_bytes(&[cb.clone()]);
    let mut db = Store::new();
    let mut rw = Rewind::new(6);
    exec_block(&mut db, &mut rw, 0, &blk);
    assert_eq!(len_of(&db, &a1), 1);
    assert_eq!(balance_of(&db, &a1), 5_000_000_000);
    let q = format!("address={}&amount=1", String::from_utf8(addr_b58(&a1)).unwrap());
    match handle_request(&db, b"/utxos", &q).unwrap() {
        UTXORes::UTXOs(us) => {
            assert_eq!(us.len(), 1);
            assert_eq!(us[0].txid, txid_of(&cb));
            assert_eq!(us[0].vout, 0);
            assert_eq!(us[0].value, 5_000_000_000);
            assert_eq!(us[0].raw, cb);
        },
        _ => panic!("expected a UTXO list"),
    }
}

#[test]
fn spend_moves_utxo_to_second_address() {
    let a1 = addr(0x11);
    let a2 = addr(0x22);
    let cb = tx_bytes(&[coinbase_input()], &[(5_000_000_000, p2pkh_script(&a1[1..]))]);
    let blk1 = block_bytes(&[cb.clone()]);
    let spend = tx_bytes(&[(txid_of(&cb), 0)], &[(5_000_000_000, p2pkh_script(&a2[1..]))]);
    let blk2 = block_bytes(&[spend]);
    let mut db = Store::new();
    let mut rw = Rewind::new(6);
    exec_block(&mut db, &mut rw, 0, &blk1);
    exec_block(&mut db, &mut rw, 1, &blk2);
    assert_eq!(len_of(&db, &a1), 0);
    assert_eq!(balance_of(&db, &a1), 0);
    assert_eq!(len_of(&db, &a2), 1);
    assert_eq!(balance_of(&db, &a2), 5_000_000_000);
}

#[test]
fn undo_restores_previous_state() {
    let a1 = addr(0x11);
    let a2 = addr(0x22);
    let cb = tx_bytes(&[coinbase_input()], &[(5_000_000_000, p2pkh_script(&a1[1..]))]);
    let blk1 = block_bytes(&[cb.clone()]);
    let spend = tx_bytes(&[(txid_of(&cb), 0)], &[(5_000_000_000, p2pkh_script(&a2[1..]))]);
    let blk2 = block_bytes(&[spend]);
    let mut db = Store::new();
    let mut rw = Rewind::new(6);
    exec_block(&mut db, &mut rw, 0, &blk1);
    exec_block(&mut db, &mut rw, 1, &blk2);
    undo_block(&mut db, &mut rw, 1, &blk2);
    assert_eq!(len_of(&db, &a1), 1);
    assert_eq!(balance_of(&db, &a1), 5_000_000_000);
    assert_eq!(len_of(&db, &a2), 0);
    assert_eq!(balance_of(&db, &a2), 0);
    // The restored slot names the original coinbase output again.
    let q = format!("address={}&amount=1", String::from_utf8(addr_b58(&a1)).unwrap());
    match handle_request(&db, b"/utxos", &q).unwrap() {
        UTXORes::UTXOs(us) => {
            assert_eq!(us.len(), 1);
            assert_eq!(us[0].txid, txid_of(&cb));
            assert_eq!(us[0].vout, 0);
            assert_eq!(us[0].value, 5_000_000_000);
        },
        _ => panic!("expected a UTXO list"),
    }
}

#[test]
fn spending_middle_slot_swap_deletes() {
    let a3 = addr(0x33);
    let script = p2pkh_script(&a3[1..]);
    let cb = tx_bytes(
        &[coinbase_input()],
        &[(10, script.clone()), (20, script.clone()), (30, script.clone())],
    );
    let blk1 = block_bytes(&[cb.clone()]);
    // Spend the middle output (value 20) into a bare, unindexed script.
    let spend = tx_bytes(&[(txid_of(&cb), 1)], &[(20, vec![0x6a])]);
    let blk2 = block_bytes(&[spend]);
    let mut db = Store::new();
    let mut rw = Rewind::new(6);
    exec_block(&mut db, &mut rw, 0, &blk1);
    assert_eq!(len_of(&db, &a3), 3);
    assert_eq!(balance_of(&db, &a3), 60);
    exec_block(&mut db, &mut rw, 1, &blk2);
    assert_eq!(len_of(&db, &a3), 2);
    assert_eq!(balance_of(&db, &a3), 40);
    let us = get_utxos(&db, &addr_b58(&a3), u64::MAX, Some(0)).unwrap();
    let mut values: Vec<u64> = us.iter().map(|u| u.value).collect();
    values.sort();
    assert_eq!(values, vec![10, 30]);
}

#[test]
fn missing_address_param_is_rejected() {
    let db = Store::new();
    assert_eq!(handle_request(&db, b"/balance", "").unwrap_err(), IndexError::MissingParam);
    assert_eq!(
        handle_request(&db, b"/balance", "address=").unwrap_err(),
        IndexError::InvalidAddress
    );
}

#[test]
fn unknown_endpoint_is_rejected() {
    let db = Store::new();
    assert_eq!(handle_request(&db, b"/other", "").unwrap_err(), IndexError::UnknownEndpoint);
}

#[test]
fn utxo_selection_returns_all_visited_when_amount_unmet() {
    let a1 = addr(0x44);
    let cb = tx_bytes(&[coinbase_input()], &[(50, p2pkh_script(&a1[1..]))]);
    let blk = block_bytes(&[cb]);
    let mut db = Store::new();
    let mut rw = Rewind::new(6);
    exec_block(&mut db, &mut rw, 0, &blk);
    let q = format!(
        "address={}&amount=100&minCount=0",
        String::from_utf8(addr_b58(&a1)).unwrap()
    );
    match handle_request(&db, b"/utxos", &q).unwrap() {
        UTXORes::UTXOs(us) => {
            assert_eq!(us.len(), 1);
            assert_eq!(us[0].value, 50);
        },
        _ => panic!("expected a UTXO list"),
    }
}

#[test]
fn full_address_rejects_add() {
    let a = addr(0x55);
    let mut db = Store::new();
    db.put(make_addr_count_key(&a), u32_to_le(u32::MAX));
    let u = UTXO { address: Some(a), txid: vec![7u8; 32], vout: 0, value: 1 };
    assert_eq!(u.add(&mut db, None).unwrap_err(), IndexError::AddressFull);
}

#[test]
fn removing_unknown_outpoint_reports_missing_record() {
    let mut db = Store::new();
    let mut rw = Rewind::new(6);
    let id = UTXOID { txid: vec![9u8; 32], vout: 0 };
    assert_eq!(id.rem(&mut db, 0, &mut rw).unwrap_err(), IndexError::MissingRecord);
}

#[test]
fn undo_without_raw_needs_fetched_tx() {
    let mut db = Store::new();
    let mut rw = Rewind::new(6);
    rw.push_entry(
        0,
        RewindEntry { id: UTXOID { txid: vec![9u8; 32], vout: 0 }, data: None, raw: None },
    );
    let empty_block = block_bytes(&[]);
    let b = Block::from_slice(&empty_block).unwrap();
    let fetched: Vec<(Vec<u8>, Vec<u8>)> = Vec::new();
    assert_eq!(
        b.undo(&mut db, 0, &mut rw, &fetched, P2PKH, P2SH).unwrap_err(),
        IndexError::RpcError
    );
}

#[test]
fn short_block_is_malformed() {
    assert_eq!(Block::from_slice(&[0u8; 40]).unwrap_err(), IndexError::MalformedBlock);
}

#[test]
fn slot_decode_rejects_bad_sizes() {
    assert_eq!(UTXO::from_kv(&[1u8; 10], &[0u8; 44]).unwrap_err(), IndexError::MalformedKey);
    assert_eq!(UTXO::from_kv(&[1u8; 26], &[0u8; 43]).unwrap_err(), IndexError::MalformedValue);
}

#[test]
fn slot_decode_round_trips() {
    let a = addr(0x66);
    let mut key = vec![1u8];
    key.extend_from_slice(&a);
    key.extend_from_slice(&0u32.to_le_bytes());
    let mut val = vec![3u8; 32];
    val.extend_from_slice(&7u32.to_le_bytes());
    val.extend_from_slice(&900u64.to_le_bytes());
    let (id, data) = UTXO::from_kv(&key, &val).unwrap();
    assert_eq!(id.txid, vec![3u8; 32]);
    assert_eq!(id.vout, 7);
    assert_eq!(data.address, Some(a));
    assert_eq!(data.value, 900);
}

#[test]
fn store_is_a_map() {
    let mut db = Store::new();
    assert_eq!(db.get(b"k"), None);
    db.put(b"k".to_vec(), b"v1".to_vec());
    assert_eq!(db.get(b"k"), Some(b"v1".to_vec()));
    db.put(b"k".to_vec(), b"v2".to_vec());
    assert_eq!(db.get(b"k"), Some(b"v2".to_vec()));
    db.delete(b"k".to_vec());
    assert_eq!(db.get(b"k"), None);
}

#[test]
fn decimal_parsing() {
    assert_eq!(parse_u64(b"123"), Some(123));
    assert_eq!(parse_u64(b"+5"), Some(5));
    assert_eq!(parse_u64(b"0"), Some(0));
    assert_eq!(parse_u64(b"18446744073709551615"), Some(u64::MAX));
    assert_eq!(parse_u64(b"18446744073709551616"), None);
    assert_eq!(parse_u64(b""), None);
    assert_eq!(parse_u64(b"+"), None);
    assert_eq!(parse_u64(b"12a"), None);
}

#[test]
fn balance_wire_encoding_is_big_endian() {
    let r = UTXORes::Balance(0x0102030405060708);
    assert_eq!(r.to_bytes(), vec![1, 2, 3, 4, 5, 6, 7, 8]);
}

#[test]
fn utxo_wire_encoding() {
    let u = utxo_index::api::UTXOData {
        txid: vec![0xaa; 32],
        vout: 1,
        value: 2,
        raw: vec![0xbb, 0xcc],
    };
    let r = UTXORes::UTXOs(vec![u]);
    let mut expected = 1u64.to_be_bytes().to_vec();
    expected.extend_from_slice(&[0xaa; 32]);
    expected.extend_from_slice(&1u32.to_be_bytes());
    expected.extend_from_slice(&2u64.to_be_bytes());
    expected.extend_from_slice(&[0xbb, 0xcc]);
    assert_eq!(r.to_bytes(), expected);
}

#[test]
fn sha256d_matches_known_vector() {
    let d = sha256d(b"");
    assert_eq!(
        d,
        hex::decode("5df6e0e2761359d30a8275058e299fcc0381534545f55cf43e41983f5d4c9456").unwrap()
    );
}

#[test]
fn invalid_base58_address_is_rejected() {
    let db = Store::new();
    assert_eq!(get_balance(&db, b"0OIl").unwrap_err(), IndexError::InvalidAddress);
}

#[test]
fn driver_follows_and_rewinds_within_horizon() {
    assert_eq!(next_action(false, false, 0, 6), DriverAction::Wait);
    assert_eq!(next_action(true, true, 0, 6), DriverAction::Extend);
    assert_eq!(next_action(true, false, 5, 6), DriverAction::Rewind);
    assert_eq!(next_action(true, false, 6, 6), DriverAction::ReorgTooDeep);
}

#[test]
fn endianness_codec_round_trips() {
    assert_eq!(u32_to_le(0x01020304), vec![4, 3, 2, 1]);
    assert_eq!(u64_to_le(0x0102030405060708), vec![8, 7, 6, 5, 4, 3, 2, 1]);
}

#[test]
fn aux_prefixed_block_parses() {
    // Bit 8 of the version signals the auxiliary prefix: one transaction,
    // 32 bytes, two var-int hash lists and a fixed trailer.
    let a1 = addr(0x77);
    let cb = tx_bytes(&[coinbase_input()], &[(123, p2pkh_script(&a1[1..]))]);
    let aux_tx = tx_bytes(&[coinbase_input()], &[(1, vec![0x6a])]);
    let mut b = 0x101u32.to_le_bytes().to_vec();
    b.extend_from_slice(&[0u8; 76]);
    b.extend_from_slice(&aux_tx);
    b.extend_from_slice(&[0u8; 32]);
    b.extend(varint(0));
    b.extend_from_slice(&[0u8; 4]);
    b.extend(varint(0));
    b.extend_from_slice(&[0u8; 84]);
    b.extend(varint(1));
    b.extend_from_slice(&cb);
    let blk = Block::from_slice(&b).unwrap();
    assert_eq!(blk.tx_count, 1);
    let mut db = Store::new();
    let mut rw = Rewind::new(6);
    blk.exec(&mut db, 0, &mut rw, P2PKH, P2SH).unwrap();
    assert_eq!(balance_of(&db, &a1), 123);
}

#[test]
fn undo_rebuilds_untracked_utxo_from_fetched_raw() {
    // An entry without stored data or raw bytes: the raw comes from the
    // fetched list and the address is rebuilt from the output script.
    let a = addr(0x88);
    let tx = tx_bytes(&[coinbase_input()], &[(777, p2pkh_script(&a[1..]))]);
    let id = UTXOID { txid: txid_of(&tx), vout: 0 };
    let mut db = Store::new();
    let mut rw = Rewind::new(6);
    rw.push_entry(0, RewindEntry { id, data: None, raw: None });
    let fetched = vec![(txid_of(&tx), tx.clone())];
    let b = Block::from_slice(&block_bytes(&[])).unwrap();
    b.undo(&mut db, 0, &mut rw, &fetched, P2PKH, P2SH).unwrap();
    assert_eq!(len_of(&db, &a), 1);
    assert_eq!(balance_of(&db, &a), 777);
    // The raw transaction was re-cached for later queries.
    let us = get_utxos(&db, &addr_b58(&a), 1, Some(0)).unwrap();
    assert_eq!(us[0].raw, tx);
}

#[test]
fn non_address_outputs_are_counted_but_not_indexed() {
    let a = addr(0x99);
    let cb = tx_bytes(
        &[coinbase_input()],
        &[(5, vec![0x6a]), (9, p2pkh_script(&a[1..]))],
    );
    let blk = block_bytes(&[cb]);
    let mut db = Store::new();
    let mut rw = Rewind::new(6);
    exec_block(&mut db, &mut rw, 0, &blk);
    assert_eq!(len_of(&db, &a), 1);
    assert_eq!(balance_of(&db, &a), 9);
}

#[test]
fn p2sh_outputs_use_the_script_hash_version() {
    let mut a = vec![P2SH];
    a.extend(std::iter::repeat(0xabu8).take(20));
    let mut script = vec![0xa9, 0x14];
    script.extend_from_slice(&a[1..]);
    script.push(0x87);
    let cb = tx_bytes(&[coinbase_input()], &[(44, script)]);
    let mut db = Store::new();
    let mut rw = Rewind::new(6);
    exec_block(&mut db, &mut rw, 0, &block_bytes(&[cb]));
    assert_eq!(len_of(&db, &a), 1);
    assert_eq!(balance_of(&db, &a), 44);
}

#[test]
fn removing_only_utxo_leaves_no_slots() {
    let a1 = addr(0xaa);
    let cb = tx_bytes(&[coinbase_input()], &[(7, p2pkh_script(&a1[1..]))]);
    let spend = tx_bytes(&[(txid_of(&cb), 0)], &[(7, vec![0x6a])]);
    let mut db = Store::new();
    let mut rw = Rewind::new(6);
    exec_block(&mut db, &mut rw, 0, &block_bytes(&[cb]));
    exec_block(&mut db, &mut rw, 1, &block_bytes(&[spend]));
    assert_eq!(len_of(&db, &a1), 0);
    assert_eq!(db.get(&make_addr_slot_key(&a1, 0)), None);
    assert_eq!(balance_of(&db, &a1), 0);
}

#[test]
fn removing_last_slot_keeps_the_others_in_place() {
    let a3 = addr(0xbb);
    let script = p2pkh_script(&a3[1..]);
    let cb = tx_bytes(
        &[coinbase_input()],
        &[(10, script.clone()), (20, script.clone()), (30, script.clone())],
    );
    let spend = tx_bytes(&[(txid_of(&cb), 2)], &[(30, vec![0x6a])]);
    let mut db = Store::new();
    let mut rw = Rewind::new(6);
    exec_block(&mut db, &mut rw, 0, &block_bytes(&[cb]));
    exec_block(&mut db, &mut rw, 1, &block_bytes(&[spend]));
    assert_eq!(len_of(&db, &a3), 2);
    let us = get_utxos(&db, &addr_b58(&a3), u64::MAX, Some(0)).unwrap();
    let values: Vec<u64> = us.iter().map(|u| u.value).collect();
    assert_eq!(values, vec![10, 20]);
}
