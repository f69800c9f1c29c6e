//! The consensus-serialized block: a byte-level parser for the header (with
//! the optional auxiliary proof-of-work prefix), the var-int driven
//! transaction list, and the forward / reverse application of a block against
//! the index.
use vstd::prelude::*;
use crate::codec::{
    le_u32, le_u64, le_to_u32, le_to_u64, copy_range, clone_bytes, bytes_eq, count_key, raw_key,
    u32_le, u32_to_le, make_count_key, make_raw_key,
};
use crate::store::Store;
use crate::rewind::{Rewind, RewindEntry, entry_view};
use crate::utxo::{rem_err, rem_map, rem_entry, spec_add, addr_len, output_address, UTXO, UTXOID};
use crate::ext::{sha256d, sha256d_of};
use crate::IndexError;

verus! {

/// A transaction input: the previous outpoint, signature script and sequence.
#[derive(Debug)]
pub struct TxIn {
    pub prev_txid: Vec<u8>,
    pub prev_vout: u32,
    pub script_sig: Vec<u8>,
    pub sequence: u32,
}

/// A transaction output: the value in satoshis and the output script.
#[derive(Debug)]
pub struct TxOut {
    pub value: u64,
    pub script_pubkey: Vec<u8>,
}

/// A parsed transaction.
#[derive(Debug)]
pub struct Tx {
    pub version: u32,
    pub input: Vec<TxIn>,
    pub output: Vec<TxOut>,
    pub lock_time: u32,
}

impl View for TxIn {
    type V = (Seq<u8>, u32, Seq<u8>, u32);

    open spec fn view(&self) -> (Seq<u8>, u32, Seq<u8>, u32) {
        (self.prev_txid@, self.prev_vout, self.script_sig@, self.sequence)
    }
}

impl View for TxOut {
    type V = (u64, Seq<u8>);

    open spec fn view(&self) -> (u64, Seq<u8>) {
        (self.value, self.script_pubkey@)
    }
}

impl View for Tx {
    type V = (u32, Seq<(Seq<u8>, u32, Seq<u8>, u32)>, Seq<(u64, Seq<u8>)>, u32);

    open spec fn view(&self) -> (u32, Seq<(Seq<u8>, u32, Seq<u8>, u32)>, Seq<(u64, Seq<u8>)>, u32) {
        (
            self.version,
            self.input@.map_values(|i: TxIn| i@),
            self.output@.map_values(|o: TxOut| o@),
            self.lock_time,
        )
    }
}

/// The conventional null outpoint marking a coinbase input.
pub open spec fn is_null_input(i: (Seq<u8>, u32, Seq<u8>, u32)) -> bool {
    i.0 == Seq::new(32, |j: int| 0u8) && i.1 == 0xffffffffu32
}

impl TxIn {
    /// Whether this input is the coinbase null input.
    pub fn is_null(&self) -> (r: bool)
        ensures
            r == is_null_input(self@),
    {
        if self.prev_vout != 0xffffffff || self.prev_txid.len() != 32 {
            proof {
                if self.prev_txid@.len() != 32 {
                    assert(self.prev_txid@ != Seq::new(32, |j: int| 0u8));
                }
            }
            return false;
        }
        let mut k: usize = 0;
        while k < 32
            invariant
                k <= 32,
                self.prev_txid@.len() == 32,
                forall|j: int| 0 <= j < k ==> self.prev_txid@[j] == 0u8,
            decreases 32 - k,
        {
            if self.prev_txid[k] != 0u8 {
                proof {
                    assert(self.prev_txid@[k as int] != Seq::new(32, |j: int| 0u8)[k as int]);
                }
                return false;
            }
            k += 1;
        }
        proof {
            assert(self.prev_txid@ =~= Seq::new(32, |j: int| 0u8));
        }
        true
    }
}

// --- Specification of the consensus byte format. ---

pub open spec fn spec_parse_varint(s: Seq<u8>, p: int) -> Option<(u64, int)> {
    if p < 0 || p >= s.len() {
        None
    } else {
        let b = s[p];
        if b < 0xfd {
            Some((b as u64, p + 1))
        } else if b == 0xfd {
            if p + 3 <= s.len() {
                Some((((s[p + 1] as u64) | ((s[p + 2] as u64) << 8)), p + 3))
            } else {
                None
            }
        } else if b == 0xfe {
            if p + 5 <= s.len() {
                Some((le_u32(s.subrange(p + 1, p + 5)) as u64, p + 5))
            } else {
                None
            }
        } else {
            if p + 9 <= s.len() {
                Some((le_u64(s.subrange(p + 1, p + 9)), p + 9))
            } else {
                None
            }
        }
    }
}

pub open spec fn spec_parse_txin(s: Seq<u8>, p: int) -> Option<((Seq<u8>, u32, Seq<u8>, u32), int)> {
    if p < 0 || p + 36 > s.len() {
        None
    } else {
        let txid = s.subrange(p, p + 32);
        let vout = le_u32(s.subrange(p + 32, p + 36));
        match spec_parse_varint(s, p + 36) {
            None => None,
            Some((sl, p2)) => {
                if p2 + sl > s.len() {
                    None
                } else {
                    let script = s.subrange(p2, p2 + sl);
                    if p2 + sl + 4 > s.len() {
                        None
                    } else {
                        Some(
                            (
                                (txid, vout, script, le_u32(s.subrange(p2 + sl, p2 + sl + 4))),
                                p2 + sl + 4,
                            ),
                        )
                    }
                }
            },
        }
    }
}

pub open spec fn spec_parse_txout(s: Seq<u8>, p: int) -> Option<((u64, Seq<u8>), int)> {
    if p < 0 || p + 8 > s.len() {
        None
    } else {
        let value = le_u64(s.subrange(p, p + 8));
        match spec_parse_varint(s, p + 8) {
            None => None,
            Some((sl, p2)) => {
                if p2 + sl > s.len() {
                    None
                } else {
                    Some(((value, s.subrange(p2, p2 + sl)), p2 + sl))
                }
            },
        }
    }
}

pub open spec fn spec_parse_txins(
    s: Seq<u8>,
    p: int,
    n: u64,
    acc: Seq<(Seq<u8>, u32, Seq<u8>, u32)>,
) -> Option<(Seq<(Seq<u8>, u32, Seq<u8>, u32)>, int)>
    decreases n,
{
    if n == 0 {
        Some((acc, p))
    } else {
        match spec_parse_txin(s, p) {
            None => None,
            Some((x, p2)) => spec_parse_txins(s, p2, (n - 1) as u64, acc.push(x)),
        }
    }
}

pub open spec fn spec_parse_txouts(s: Seq<u8>, p: int, n: u64, acc: Seq<(u64, Seq<u8>)>) -> Option<
    (Seq<(u64, Seq<u8>)>, int),
>
    decreases n,
{
    if n == 0 {
        Some((acc, p))
    } else {
        match spec_parse_txout(s, p) {
            None => None,
            Some((x, p2)) => spec_parse_txouts(s, p2, (n - 1) as u64, acc.push(x)),
        }
    }
}

pub open spec fn spec_parse_tx(s: Seq<u8>, p: int) -> Option<
    ((u32, Seq<(Seq<u8>, u32, Seq<u8>, u32)>, Seq<(u64, Seq<u8>)>, u32), int),
> {
    if p < 0 || p + 4 > s.len() {
        None
    } else {
        let version = le_u32(s.subrange(p, p + 4));
        match spec_parse_varint(s, p + 4) {
            None => None,
            Some((n_in, p1)) => match spec_parse_txins(s, p1, n_in, Seq::empty()) {
                None => None,
                Some((ins, p2)) => match spec_parse_varint(s, p2) {
                    None => None,
                    Some((n_out, p3)) => match spec_parse_txouts(s, p3, n_out, Seq::empty()) {
                        None => None,
                        Some((outs, p4)) => {
                            if p4 + 4 > s.len() {
                                None
                            } else {
                                Some(
                                    (
                                        (version, ins, outs, le_u32(s.subrange(p4, p4 + 4))),
                                        p4 + 4,
                                    ),
                                )
                            }
                        },
                    },
                },
            },
        }
    }
}

/// The position of the transaction count after the auxiliary proof-of-work
/// prefix: one transaction, 32 bytes, a var-int hash list, another var-int
/// hash list and a fixed trailer.
pub open spec fn spec_skip_aux(s: Seq<u8>, p: int) -> Option<int> {
    match spec_parse_tx(s, p) {
        None => None,
        Some((_tx, p1)) => match spec_parse_varint(s, p1 + 32) {
            None => None,
            Some((n, p3)) => match spec_parse_varint(s, p3 + 32 * (n as int) + 4) {
                None => None,
                Some((m, p5)) => Some(p5 + 32 * (m as int) + 84),
            },
        },
    }
}

/// The header fields, transaction count and position of the first transaction
/// of a serialized block. Bit 8 of the version signals the auxiliary prefix.
pub open spec fn spec_parse_block(s: Seq<u8>) -> Option<
    ((u32, Seq<u8>, Seq<u8>, u32, u32, u32), u64, int),
> {
    if s.len() < 80 {
        None
    } else {
        let version = le_u32(s.subrange(0, 4));
        let start = if version & 0x100 != 0 {
            spec_skip_aux(s, 80)
        } else {
            Some(80int)
        };
        match start {
            None => None,
            Some(p) => match spec_parse_varint(s, p) {
                None => None,
                Some((c, p2)) => Some(
                    (
                        (
                            version,
                            s.subrange(4, 36),
                            s.subrange(36, 68),
                            le_u32(s.subrange(68, 72)),
                            le_u32(s.subrange(72, 76)),
                            le_u32(s.subrange(76, 80)),
                        ),
                        c,
                        p2,
                    ),
                ),
            },
        }
    }
}

// --- Executable parsers, each proved against its specification. ---

pub fn parse_varint(s: &[u8], p: usize) -> (r: Option<(u64, usize)>)
    ensures
        match r {
            Some((v, np)) => spec_parse_varint(s@, p as int) == Some((v, np as int)) && p < np
                <= s@.len(),
            None => spec_parse_varint(s@, p as int) is None,
        },
{
    if p >= s.len() {
        return None;
    }
    let b = s[p];
    if b < 0xfd {
        Some((b as u64, p + 1))
    } else if b == 0xfd {
        if s.len() - p >= 3 {
            Some(((s[p + 1] as u64) | ((s[p + 2] as u64) << 8), p + 3))
        } else {
            None
        }
    } else if b == 0xfe {
        if s.len() - p >= 5 {
            let v = copy_range(s, p + 1, p + 5);
            Some((le_to_u32(v.as_slice()) as u64, p + 5))
        } else {
            None
        }
    } else {
        if s.len() - p >= 9 {
            let v = copy_range(s, p + 1, p + 9);
            Some((le_to_u64(v.as_slice()), p + 9))
        } else {
            None
        }
    }
}

pub fn parse_txin(s: &[u8], p: usize) -> (r: Option<(TxIn, usize)>)
    ensures
        match r {
            Some((i, np)) => spec_parse_txin(s@, p as int) == Some((i@, np as int)) && p < np
                <= s@.len(),
            None => spec_parse_txin(s@, p as int) is None,
        },
{
    if s.len() < 36 || p > s.len() - 36 {
        return None;
    }
    let txid = copy_range(s, p, p + 32);
    let vout_b = copy_range(s, p + 32, p + 36);
    let vout = le_to_u32(vout_b.as_slice());
    match parse_varint(s, p + 36) {
        None => None,
        Some((sl, p2)) => {
            if sl > (s.len() - p2) as u64 {
                return None;
            }
            let sl_us = sl as usize;
            let script = copy_range(s, p2, p2 + sl_us);
            let q = p2 + sl_us;
            if s.len() - q < 4 {
                return None;
            }
            let seq_b = copy_range(s, q, q + 4);
            let sequence = le_to_u32(seq_b.as_slice());
            Some((TxIn { prev_txid: txid, prev_vout: vout, script_sig: script, sequence }, q + 4))
        },
    }
}

pub fn parse_txout(s: &[u8], p: usize) -> (r: Option<(TxOut, usize)>)
    ensures
        match r {
            Some((o, np)) => spec_parse_txout(s@, p as int) == Some((o@, np as int)) && p < np
                <= s@.len(),
            None => spec_parse_txout(s@, p as int) is None,
        },
{
    if s.len() < 8 || p > s.len() - 8 {
        return None;
    }
    let val_b = copy_range(s, p, p + 8);
    let value = le_to_u64(val_b.as_slice());
    match parse_varint(s, p + 8) {
        None => None,
        Some((sl, p2)) => {
            if sl > (s.len() - p2) as u64 {
                return None;
            }
            let sl_us = sl as usize;
            let script = copy_range(s, p2, p2 + sl_us);
            Some((TxOut { value, script_pubkey: script }, p2 + sl_us))
        },
    }
}

fn parse_txins(s: &[u8], p: usize, n: u64) -> (r: Option<(Vec<TxIn>, usize)>)
    requires
        p <= s@.len(),
    ensures
        match r {
            Some((v, np)) => spec_parse_txins(s@, p as int, n, Seq::empty()) == Some(
                (v@.map_values(|i: TxIn| i@), np as int),
            ) && p <= np <= s@.len(),
            None => spec_parse_txins(s@, p as int, n, Seq::empty()) is None,
        },
{
    let mut ins: Vec<TxIn> = Vec::new();
    let mut pos: usize = p;
    let mut k: u64 = 0;
    proof {
        assert(ins@.map_values(|i: TxIn| i@) =~= Seq::<(Seq<u8>, u32, Seq<u8>, u32)>::empty());
    }
    while k < n
        invariant
            k <= n,
            p <= pos <= s@.len(),
            spec_parse_txins(s@, p as int, n, Seq::empty()) == spec_parse_txins(
                s@,
                pos as int,
                (n - k) as u64,
                ins@.map_values(|i: TxIn| i@),
            ),
        decreases n - k,
    {
        match parse_txin(s, pos) {
            None => {
                return None;
            },
            Some((i, np)) => {
                let ghost prev = ins@.map_values(|x: TxIn| x@);
                let ghost iv = i@;
                ins.push(i);
                proof {
                    assert(ins@.map_values(|x: TxIn| x@) =~= prev.push(iv));
                }
                pos = np;
                k += 1;
            },
        }
    }
    Some((ins, pos))
}

fn parse_txouts(s: &[u8], p: usize, n: u64) -> (r: Option<(Vec<TxOut>, usize)>)
    requires
        p <= s@.len(),
    ensures
        match r {
            Some((v, np)) => spec_parse_txouts(s@, p as int, n, Seq::empty()) == Some(
                (v@.map_values(|o: TxOut| o@), np as int),
            ) && p <= np <= s@.len(),
            None => spec_parse_txouts(s@, p as int, n, Seq::empty()) is None,
        },
{
    let mut outs: Vec<TxOut> = Vec::new();
    let mut pos: usize = p;
    let mut k: u64 = 0;
    proof {
        assert(outs@.map_values(|o: TxOut| o@) =~= Seq::<(u64, Seq<u8>)>::empty());
    }
    while k < n
        invariant
            k <= n,
            p <= pos <= s@.len(),
            spec_parse_txouts(s@, p as int, n, Seq::empty()) == spec_parse_txouts(
                s@,
                pos as int,
                (n - k) as u64,
                outs@.map_values(|o: TxOut| o@),
            ),
        decreases n - k,
    {
        match parse_txout(s, pos) {
            None => {
                return None;
            },
            Some((o, np)) => {
                let ghost prev = outs@.map_values(|x: TxOut| x@);
                let ghost ov = o@;
                outs.push(o);
                proof {
                    assert(outs@.map_values(|x: TxOut| x@) =~= prev.push(ov));
                }
                pos = np;
                k += 1;
            },
        }
    }
    Some((outs, pos))
}

/// Parse one transaction at a byte position.
pub fn parse_tx(s: &[u8], p: usize) -> (r: Option<(Tx, usize)>)
    ensures
        match r {
            Some((tx, np)) => spec_parse_tx(s@, p as int) == Some((tx@, np as int)) && p < np
                <= s@.len(),
            None => spec_parse_tx(s@, p as int) is None,
        },
{
    if s.len() < 4 || p > s.len() - 4 {
        return None;
    }
    let ver_b = copy_range(s, p, p + 4);
    let version = le_to_u32(ver_b.as_slice());
    match parse_varint(s, p + 4) {
        None => None,
        Some((n_in, p1)) => match parse_txins(s, p1, n_in) {
            None => None,
            Some((ins, p2)) => match parse_varint(s, p2) {
                None => None,
                Some((n_out, p3)) => match parse_txouts(s, p3, n_out) {
                    None => None,
                    Some((outs, p4)) => {
                        if s.len() - p4 < 4 {
                            return None;
                        }
                        let lt_b = copy_range(s, p4, p4 + 4);
                        let lock_time = le_to_u32(lt_b.as_slice());
                        Some((Tx { version, input: ins, output: outs, lock_time }, p4 + 4))
                    },
                },
            },
        },
    }
}

/// Find the transaction count's position past the auxiliary prefix. `None`
/// also covers a prefix whose stated end lies past the buffer.
fn skip_aux(s: &[u8], p: usize) -> (r: Option<usize>)
    requires
        s@.len() <= usize::MAX - 100,
    ensures
        match r {
            Some(q) => spec_skip_aux(s@, p as int) == Some(q as int) && q <= s@.len(),
            None => spec_skip_aux(s@, p as int) is None || (spec_skip_aux(s@, p as int) matches
                Some(q) && q > s@.len()),
        },
{
    match parse_tx(s, p) {
        None => None,
        Some((_tx, p1)) => {
            match parse_varint(s, p1 + 32) {
                None => None,
                Some((n, p3)) => {
                    if n > ((s.len() - p3) / 32) as u64 {
                        proof {
                            assert(p3 + 32 * (n as int) + 4 > s@.len());
                        }
                        return None;
                    }
                    let p4 = p3 + 32 * (n as usize) + 4;
                    match parse_varint(s, p4) {
                        None => None,
                        Some((m, p5)) => {
                            if m > ((s.len() - p5) / 32) as u64 {
                                proof {
                                    assert(p5 + 32 * (m as int) + 84 > s@.len());
                                }
                                return None;
                            }
                            let p6 = p5 + 32 * (m as usize) + 84;
                            if p6 > s.len() {
                                return None;
                            }
                            Some(p6)
                        },
                    }
                },
            }
        },
    }
}

/// A block being applied: its header fields, transaction count, and a cursor
/// over the raw transaction bytes.
#[derive(Debug)]
pub struct Block {
    pub version: u32,
    pub prev_blockhash: Vec<u8>,
    pub merkle_root: Vec<u8>,
    pub time: u32,
    pub bits: u32,
    pub nonce: u32,
    pub tx_count: u64,
    pub parsed: u64,
    pub offset: usize,
    pub raw: Vec<u8>,
}

impl View for Block {
    type V = (u32, Seq<u8>, Seq<u8>, u32, u32, u32, u64, u64, int, Seq<u8>);

    open spec fn view(&self) -> (u32, Seq<u8>, Seq<u8>, u32, u32, u32, u64, u64, int, Seq<u8>) {
        (
            self.version,
            self.prev_blockhash@,
            self.merkle_root@,
            self.time,
            self.bits,
            self.nonce,
            self.tx_count,
            self.parsed,
            self.offset as int,
            self.raw@,
        )
    }
}

impl Block {
    pub open spec fn wf(&self) -> bool {
        self.offset <= self.raw@.len() && self.parsed <= self.tx_count
    }

    /// Parse the header (skipping the auxiliary prefix when bit 8 of the
    /// version is set) and the transaction count of a serialized block.
    pub fn from_slice(raw: &[u8]) -> (r: Result<Block, IndexError>)
        requires
            raw@.len() <= usize::MAX - 100,
        ensures
            match r {
                Ok(b) => {
                    &&& spec_parse_block(raw@) == Some(
                        (
                            (b.version, b.prev_blockhash@, b.merkle_root@, b.time, b.bits, b.nonce),
                            b.tx_count,
                            b.offset as int,
                        ),
                    )
                    &&& b.raw@ == raw@
                    &&& b.parsed == 0
                    &&& b.wf()
                },
                Err(e) => e == IndexError::MalformedBlock && (spec_parse_block(raw@) is None
                    || (spec_parse_block(raw@) matches Some((h, c, p)) && p > raw@.len())),
            },
    {
        if raw.len() < 80 {
            return Err(IndexError::MalformedBlock);
        }
        let ver_b = copy_range(raw, 0, 4);
        let version = le_to_u32(ver_b.as_slice());
        let start: usize = if version & 0x100 != 0 {
            match skip_aux(raw, 80) {
                None => {
                    return Err(IndexError::MalformedBlock);
                },
                Some(q) => q,
            }
        } else {
            80
        };
        match parse_varint(raw, start) {
            None => Err(IndexError::MalformedBlock),
            Some((c, p2)) => Ok(
                Block {
                    version,
                    prev_blockhash: copy_range(raw, 4, 36),
                    merkle_root: copy_range(raw, 36, 68),
                    time: {
                        let b = copy_range(raw, 68, 72);
                        le_to_u32(b.as_slice())
                    },
                    bits: {
                        let b = copy_range(raw, 72, 76);
                        le_to_u32(b.as_slice())
                    },
                    nonce: {
                        let b = copy_range(raw, 76, 80);
                        le_to_u32(b.as_slice())
                    },
                    tx_count: c,
                    parsed: 0,
                    offset: p2,
                    raw: clone_bytes(raw),
                },
            ),
        }
    }

    /// The next transaction of the block, with the byte range it occupies.
    /// `None` once all transactions were handed out.
    pub fn next(&mut self) -> (r: Option<Result<(Tx, usize, usize), IndexError>>)
        requires
            old(self).wf(),
        ensures
            final(self).wf(),
            final(self).raw@ == old(self).raw@,
            final(self).tx_count == old(self).tx_count,
            match r {
                None => old(self).parsed == old(self).tx_count && *final(self) == *old(self),
                Some(Ok((tx, start, end))) => {
                    &&& old(self).parsed < old(self).tx_count
                    &&& spec_parse_tx(old(self).raw@, old(self).offset as int) == Some(
                        (tx@, end as int),
                    )
                    &&& start == old(self).offset
                    &&& start < end
                    &&& final(self).offset == end
                    &&& final(self).parsed == old(self).parsed + 1
                },
                Some(Err(e)) => {
                    &&& e == IndexError::MalformedBlock
                    &&& old(self).parsed < old(self).tx_count
                    &&& spec_parse_tx(old(self).raw@, old(self).offset as int) is None
                    &&& final(self).parsed == old(self).parsed + 1
                    &&& final(self).offset == old(self).offset
                },
            },
    {
        if self.parsed >= self.tx_count {
            return None;
        }
        let start = self.offset;
        match parse_tx(self.raw.as_slice(), start) {
            None => {
                self.parsed = self.parsed + 1;
                Some(Err(IndexError::MalformedBlock))
            },
            Some((tx, np)) => {
                self.offset = np;
                self.parsed = self.parsed + 1;
                Some(Ok((tx, start, np)))
            },
        }
    }
}

} // verus!

// --- Forward application. ---

verus! {

/// The undo record of one spend as plain values.
pub type EntryV = ((Seq<u8>, u32), Option<(Option<Seq<u8>>, u64)>, Option<Seq<u8>>);

/// The entries of a rewind slot as plain values.
pub open spec fn slot_evs(s: Seq<RewindEntry>) -> Seq<EntryV> {
    s.map_values(|e: RewindEntry| entry_view(e))
}

/// Remove the spent outpoints of a transaction's inputs [k, ..) in order,
/// skipping coinbase null inputs, collecting the undo records.
pub open spec fn spec_rem_inputs(
    m: Map<Seq<u8>, Seq<u8>>,
    ins: Seq<(Seq<u8>, u32, Seq<u8>, u32)>,
    k: int,
    evs: Seq<EntryV>,
) -> Result<(Map<Seq<u8>, Seq<u8>>, Seq<EntryV>), IndexError>
    decreases ins.len() - k,
{
    if k < 0 || k >= ins.len() {
        Ok((m, evs))
    } else {
        let i = ins[k];
        if is_null_input(i) {
            spec_rem_inputs(m, ins, k + 1, evs)
        } else if i.0.len() != 32 {
            Err(IndexError::MalformedKey)
        } else {
            match rem_err(m, i.0, i.1) {
                Some(e) => Err(e),
                None => spec_rem_inputs(
                    rem_map(m, i.0, i.1),
                    ins,
                    k + 1,
                    evs.push(rem_entry(m, i.0, i.1)),
                ),
            }
        }
    }
}

/// Add the outputs [j, ..) of a transaction under their txid, in order.
pub open spec fn spec_add_outputs(
    m: Map<Seq<u8>, Seq<u8>>,
    t: Seq<u8>,
    outs: Seq<(u64, Seq<u8>)>,
    j: int,
    pk: u8,
    sh: u8,
) -> Result<Map<Seq<u8>, Seq<u8>>, IndexError>
    decreases outs.len() - j,
{
    if j < 0 || j >= outs.len() {
        Ok(m)
    } else {
        let a = output_address(outs[j].1, pk, sh);
        if a is Some && addr_len(m, a->Some_0) == u32::MAX {
            Err(IndexError::AddressFull)
        } else {
            spec_add_outputs(spec_add(m, a, t, j as u32, outs[j].0, None), t, outs, j + 1, pk, sh)
        }
    }
}

/// Apply one transaction: spend its inputs, store its unspent count and raw
/// bytes, add its outputs.
pub open spec fn spec_exec_tx(
    m: Map<Seq<u8>, Seq<u8>>,
    tb: Seq<u8>,
    txm: (u32, Seq<(Seq<u8>, u32, Seq<u8>, u32)>, Seq<(u64, Seq<u8>)>, u32),
    evs: Seq<EntryV>,
    pk: u8,
    sh: u8,
) -> Result<(Map<Seq<u8>, Seq<u8>>, Seq<EntryV>), IndexError> {
    let t = sha256d_of(tb);
    if txm.2.len() > u32::MAX {
        Err(IndexError::MalformedBlock)
    } else {
        match spec_rem_inputs(m, txm.1, 0, evs) {
            Err(e) => Err(e),
            Ok((m2, evs2)) => {
                let m3 = m2.insert(count_key(t), u32_le(txm.2.len() as u32)).insert(raw_key(t), tb);
                match spec_add_outputs(m3, t, txm.2, 0, pk, sh) {
                    Err(e) => Err(e),
                    Ok(m4) => Ok((m4, evs2)),
                }
            },
        }
    }
}

/// Apply the remaining `n` transactions of a block from position `p`.
pub open spec fn spec_exec_block(
    m: Map<Seq<u8>, Seq<u8>>,
    s: Seq<u8>,
    p: int,
    n: u64,
    evs: Seq<EntryV>,
    pk: u8,
    sh: u8,
) -> Result<(Map<Seq<u8>, Seq<u8>>, Seq<EntryV>), IndexError>
    decreases n,
{
    if n == 0 {
        Ok((m, evs))
    } else {
        match spec_parse_tx(s, p) {
            None => Err(IndexError::MalformedBlock),
            Some((txm, np)) => match spec_exec_tx(m, s.subrange(p, np), txm, evs, pk, sh) {
                Err(e) => Err(e),
                Ok((m2, evs2)) => spec_exec_block(m2, s, np, (n - 1) as u64, evs2, pk, sh),
            },
        }
    }
}

impl Block {
    /// Apply this block at height-slot `idx`: clear the rewind slot, then for
    /// each transaction spend the non-coinbase inputs (recording undo
    /// entries), store the unspent count and raw bytes, and add the outputs.
    #[verifier::loop_isolation(false)]
    pub fn exec(
        self,
        db: &mut Store,
        idx: u32,
        rewind: &mut Rewind,
        p2pkh_version: u8,
        p2sh_version: u8,
    ) -> (r: Result<(), IndexError>)
        requires
            self.wf(),
            self.parsed == 0,
            old(rewind)@.len() >= 1,
        ensures
            ({
                let si = idx as int % old(rewind)@.len() as int;
                let total = spec_exec_block(
                    old(db)@,
                    self.raw@,
                    self.offset as int,
                    self.tx_count,
                    Seq::empty(),
                    p2pkh_version,
                    p2sh_version,
                );
                match r {
                    Ok(()) => exists|es: Seq<RewindEntry>|
                        final(rewind)@ == old(rewind)@.update(si, es) && total == Ok::<
                            _,
                            IndexError,
                        >((final(db)@, #[trigger] slot_evs(es))),
                    Err(e) => total == Err::<
                        (Map<Seq<u8>, Seq<u8>>, Seq<EntryV>),
                        IndexError,
                    >(e) && final(rewind)@.len() == old(rewind)@.len(),
                }
            }),
    {
        let mut blk = self;
        let ghost m0 = db@;
        let ghost rw0 = rewind@;
        let ghost raw0 = blk.raw@;
        let ghost offset0 = blk.offset as int;
        let ghost count0 = blk.tx_count;
        let n = rewind.depth();
        let si = (idx as usize) % n;
        rewind.clear(si);
        proof {
            assert(slot_evs(rewind@[si as int]) =~= Seq::<EntryV>::empty());
        }
        while blk.parsed < blk.tx_count
            invariant
                blk.wf(),
                blk.raw@ == raw0,
                blk.tx_count == count0,
                rewind@.len() == rw0.len(),
                forall|j: int| 0 <= j < rw0.len() && j != si as int ==> rewind@[j] == rw0[j],
                spec_exec_block(m0, raw0, offset0, count0, Seq::empty(), p2pkh_version,
                    p2sh_version) == spec_exec_block(
                    db@,
                    raw0,
                    blk.offset as int,
                    (count0 - blk.parsed) as u64,
                    slot_evs(rewind@[si as int]),
                    p2pkh_version,
                    p2sh_version,
                ),
            decreases blk.tx_count - blk.parsed,
        {
            let ghost parsed_b = blk.parsed;
            let ghost offset_b = blk.offset as int;
            let ghost evs_tx = slot_evs(rewind@[si as int]);
            let ghost m_tx = db@;
            match blk.next() {
                None => {
                    proof {
                        assert(false);
                    }
                    return Err(IndexError::MalformedBlock);
                },
                Some(Err(e)) => {
                    return Err(e);
                },
                Some(Ok((tx, start, end))) => {
                    let ghost txm = tx@;
                    let ghost tb = raw0.subrange(start as int, end as int);
                    let tx_bytes = copy_range(blk.raw.as_slice(), start, end);
                    let txid = sha256d(tx_bytes.as_slice());
                    if tx.output.len() > u32::MAX as usize {
                        return Err(IndexError::MalformedBlock);
                    }
                    let mut k: usize = 0;
                    while k < tx.input.len()
                        invariant
                            k <= tx.input@.len(),
                            rewind@.len() == rw0.len(),
                            forall|j: int|
                                0 <= j < rw0.len() && j != si as int ==> rewind@[j] == rw0[j],
                            spec_rem_inputs(m_tx, txm.1, 0, evs_tx) == spec_rem_inputs(
                                db@,
                                txm.1,
                                k as int,
                                slot_evs(rewind@[si as int]),
                            ),
                        decreases tx.input@.len() - k,
                    {
                        proof {
                            assert(txm.1[k as int] == tx.input@[k as int]@);
                        }
                        let skip = tx.input[k].is_null();
                        if !skip {
                            if tx.input[k].prev_txid.len() != 32 {
                                return Err(IndexError::MalformedKey);
                            }
                            let id = UTXOID {
                                txid: clone_bytes(tx.input[k].prev_txid.as_slice()),
                                vout: tx.input[k].prev_vout,
                            };
                            let ghost m_in = db@;
                            let ghost evs_in = slot_evs(rewind@[si as int]);
                            match id.rem(db, idx, rewind) {
                                Err(e) => {
                                    return Err(e);
                                },
                                Ok(()) => {
                                    proof {
                                        let e = choose|e: RewindEntry|
                                            #[trigger] entry_view(e) == rem_entry(
                                                m_in,
                                                id.txid@,
                                                id.vout,
                                            ) && rewind@ == old(rewind)@.update(
                                                idx as int % rw0.len() as int,
                                                old(rewind)@[idx as int % rw0.len() as int].push(
                                                    e,
                                                ),
                                            );
                                        assert(slot_evs(rewind@[si as int]) =~= evs_in.push(
                                            rem_entry(m_in, id.txid@, id.vout),
                                        ));
                                    }
                                },
                            }
                        }
                        k += 1;
                    }
                    let ghost m2 = db@;
                    let ghost evs2 = slot_evs(rewind@[si as int]);
                    let ck = make_count_key(txid.as_slice());
                    db.put(ck, u32_to_le(tx.output.len() as u32));
                    let rk = make_raw_key(txid.as_slice());
                    db.put(rk, tx_bytes);
                    let ghost m3 = db@;
                    proof {
                        assert(spec_rem_inputs(m_tx, txm.1, 0, evs_tx) == Ok::<
                            _,
                            IndexError,
                        >((m2, evs2)));
                        assert(m3 == m2.insert(count_key(txid@), u32_le(txm.2.len() as u32)).insert(
                            raw_key(txid@),
                            tb,
                        ));
                    }
                    let mut j: usize = 0;
                    while j < tx.output.len()
                        invariant
                            j <= tx.output@.len(),
                            rewind@.len() == rw0.len(),
                            forall|jj: int|
                                0 <= jj < rw0.len() && jj != si as int ==> rewind@[jj] == rw0[jj],
                            slot_evs(rewind@[si as int]) == evs2,
                            spec_add_outputs(m3, txid@, txm.2, 0, p2pkh_version, p2sh_version)
                                == spec_add_outputs(
                                db@,
                                txid@,
                                txm.2,
                                j as int,
                                p2pkh_version,
                                p2sh_version,
                            ),
                        decreases tx.output@.len() - j,
                    {
                        proof {
                            assert(txm.2[j as int] == tx.output@[j as int]@);
                        }
                        let u = UTXO::from_txout(
                            txid.as_slice(),
                            tx.output[j].script_pubkey.as_slice(),
                            tx.output[j].value,
                            j as u32,
                            p2pkh_version,
                            p2sh_version,
                        );
                        match u.add(db, None) {
                            Err(e) => {
                                return Err(e);
                            },
                            Ok(()) => {},
                        }
                        j += 1;
                    }
                    proof {
                        assert(spec_exec_tx(m_tx, tb, txm, evs_tx, p2pkh_version, p2sh_version)
                            == Ok::<_, IndexError>((db@, evs2)));
                    }
                },
            }
        }
        proof {
            let es = rewind@[si as int];
            assert(rewind@ =~= rw0.update(si as int, es));
        }
        Ok(())
    }
}

} // verus!

// --- Reverse application. ---

verus! {

/// The raw transactions fetched from the node, as plain values.
pub open spec fn fetched_view(s: Seq<(Vec<u8>, Vec<u8>)>) -> Seq<(Seq<u8>, Seq<u8>)> {
    s.map_values(|p: (Vec<u8>, Vec<u8>)| (p.0@, p.1@))
}

/// The first raw transaction listed under a txid, if any.
pub open spec fn lookup_raw_at(fetched: Seq<(Seq<u8>, Seq<u8>)>, t: Seq<u8>, k: int) -> Option<
    Seq<u8>,
>
    decreases fetched.len() - k,
{
    if k < 0 || k >= fetched.len() {
        None
    } else if fetched[k].0 == t {
        Some(fetched[k].1)
    } else {
        lookup_raw_at(fetched, t, k + 1)
    }
}

#[verifier::loop_isolation(false)]
fn find_raw(fetched: &Vec<(Vec<u8>, Vec<u8>)>, t: &[u8]) -> (r: Option<Vec<u8>>)
    ensures
        match r {
            Some(v) => lookup_raw_at(fetched_view(fetched@), t@, 0) == Some(v@),
            None => lookup_raw_at(fetched_view(fetched@), t@, 0) is None,
        },
{
    let mut k: usize = 0;
    while k < fetched.len()
        invariant
            k <= fetched@.len(),
            lookup_raw_at(fetched_view(fetched@), t@, 0) == lookup_raw_at(
                fetched_view(fetched@),
                t@,
                k as int,
            ),
        decreases fetched@.len() - k,
    {
        if bytes_eq(fetched[k].0.as_slice(), t) {
            return Some(clone_bytes(fetched[k].1.as_slice()));
        }
        k += 1;
    }
    None
}

/// Reinsert one spent UTXO from its undo record: take the raw transaction
/// from the record or from the fetched list, rebuild the UTXO from the stored
/// data or from the referenced output's script, and add it with the raw and
/// output count.
pub open spec fn spec_undo_entry(
    m: Map<Seq<u8>, Seq<u8>>,
    ev: EntryV,
    fetched: Seq<(Seq<u8>, Seq<u8>)>,
    pk: u8,
    sh: u8,
) -> Result<Map<Seq<u8>, Seq<u8>>, IndexError> {
    if ev.0.0.len() != 32 {
        Err(IndexError::MalformedKey)
    } else {
        let raw = match ev.2 {
            Some(r) => Some(r),
            None => lookup_raw_at(fetched, ev.0.0, 0),
        };
        match raw {
            None => Err(IndexError::RpcError),
            Some(rb) => match spec_parse_tx(rb, 0) {
                None => Err(IndexError::MalformedBlock),
                Some((txm, np)) => {
                    if txm.2.len() > u32::MAX {
                        Err(IndexError::MalformedBlock)
                    } else {
                        let av = match ev.1 {
                            Some(d) => Some(d),
                            None => {
                                if (ev.0.1 as int) < txm.2.len() {
                                    Some(
                                        (
                                            output_address(txm.2[ev.0.1 as int].1, pk, sh),
                                            txm.2[ev.0.1 as int].0,
                                        ),
                                    )
                                } else {
                                    None
                                }
                            },
                        };
                        match av {
                            None => Err(IndexError::MalformedBlock),
                            Some((addr, value)) => {
                                if addr is Some && addr->Some_0.len() != 21 {
                                    Err(IndexError::MalformedValue)
                                } else if addr is Some && addr_len(m, addr->Some_0) == u32::MAX {
                                    Err(IndexError::AddressFull)
                                } else {
                                    Ok(
                                        spec_add(
                                            m,
                                            addr,
                                            ev.0.0,
                                            ev.0.1,
                                            value,
                                            Some((rb, txm.2.len() as u32)),
                                        ),
                                    )
                                }
                            },
                        }
                    }
                },
            },
        }
    }
}

fn undo_entry(
    db: &mut Store,
    e: RewindEntry,
    fetched: &Vec<(Vec<u8>, Vec<u8>)>,
    pk: u8,
    sh: u8,
) -> (r: Result<(), IndexError>)
    ensures
        match r {
            Ok(()) => spec_undo_entry(old(db)@, entry_view(e), fetched_view(fetched@), pk, sh)
                == Ok::<_, IndexError>(final(db)@),
            Err(err) => spec_undo_entry(old(db)@, entry_view(e), fetched_view(fetched@), pk, sh)
                == Err::<Map<Seq<u8>, Seq<u8>>, IndexError>(err) && final(db)@ == old(db)@,
        },
{
    if e.id.txid.len() != 32 {
        return Err(IndexError::MalformedKey);
    }
    let raw: Vec<u8> = match e.raw {
        Some(r) => r,
        None => match find_raw(fetched, e.id.txid.as_slice()) {
            Some(r) => r,
            None => {
                return Err(IndexError::RpcError);
            },
        },
    };
    let (tx, _np) = match parse_tx(raw.as_slice(), 0) {
        None => {
            return Err(IndexError::MalformedBlock);
        },
        Some(x) => x,
    };
    if tx.output.len() > u32::MAX as usize {
        return Err(IndexError::MalformedBlock);
    }
    let out_count = tx.output.len() as u32;
    let utxo: UTXO = match e.data {
        Some(d) => {
            if let Some(a) = &d.address {
                if a.len() != 21 {
                    return Err(IndexError::MalformedValue);
                }
            }
            UTXO::from_parts(e.id, d)
        },
        None => {
            if !((e.id.vout as usize) < tx.output.len()) {
                return Err(IndexError::MalformedBlock);
            }
            let vout = e.id.vout;
            proof {
                assert(tx@.2[vout as int] == tx.output@[vout as int]@);
            }
            UTXO::from_txout(
                e.id.txid.as_slice(),
                tx.output[vout as usize].script_pubkey.as_slice(),
                tx.output[vout as usize].value,
                vout,
                pk,
                sh,
            )
        },
    };
    match utxo.add(db, Some((raw, out_count))) {
        Err(err) => Err(err),
        Ok(()) => Ok(()),
    }
}

/// Replay a slot's undo records, most recent first.
pub open spec fn spec_undo_entries(
    m: Map<Seq<u8>, Seq<u8>>,
    evs: Seq<EntryV>,
    fetched: Seq<(Seq<u8>, Seq<u8>)>,
    pk: u8,
    sh: u8,
) -> Result<Map<Seq<u8>, Seq<u8>>, IndexError>
    decreases evs.len(),
{
    if evs.len() == 0 {
        Ok(m)
    } else {
        match spec_undo_entry(m, evs.last(), fetched, pk, sh) {
            Err(e) => Err(e),
            Ok(m2) => spec_undo_entries(m2, evs.drop_last(), fetched, pk, sh),
        }
    }
}

/// Remove the outputs [j, n) of a transaction, collecting undo records.
pub open spec fn spec_rem_outputs(
    m: Map<Seq<u8>, Seq<u8>>,
    t: Seq<u8>,
    n: u32,
    j: u32,
    evs: Seq<EntryV>,
) -> Result<(Map<Seq<u8>, Seq<u8>>, Seq<EntryV>), IndexError>
    decreases n - j,
{
    if j >= n {
        Ok((m, evs))
    } else {
        match rem_err(m, t, j) {
            Some(e) => Err(e),
            None => spec_rem_outputs(
                rem_map(m, t, j),
                t,
                n,
                (j + 1) as u32,
                evs.push(rem_entry(m, t, j)),
            ),
        }
    }
}

/// Remove every output that the remaining `n` transactions of a block created.
pub open spec fn spec_undo_block(
    m: Map<Seq<u8>, Seq<u8>>,
    s: Seq<u8>,
    p: int,
    n: u64,
    evs: Seq<EntryV>,
) -> Result<(Map<Seq<u8>, Seq<u8>>, Seq<EntryV>), IndexError>
    decreases n,
{
    if n == 0 {
        Ok((m, evs))
    } else {
        match spec_parse_tx(s, p) {
            None => Err(IndexError::MalformedBlock),
            Some((txm, np)) => {
                let t = sha256d_of(s.subrange(p, np));
                if txm.2.len() > u32::MAX {
                    Err(IndexError::MalformedBlock)
                } else {
                    match spec_rem_outputs(m, t, txm.2.len() as u32, 0, evs) {
                        Err(e) => Err(e),
                        Ok((m2, evs2)) => spec_undo_block(m2, s, np, (n - 1) as u64, evs2),
                    }
                }
            },
        }
    }
}

impl Block {
    /// Reverse this block's application: replay the rewind slot for `idx`
    /// (reinserting every UTXO the block spent), then remove every output the
    /// block created. The slot is left holding only the ephemeral records of
    /// the removal pass; the caller discards them. Raw transactions missing
    /// from the slot are looked up in `fetched` by txid.
    #[verifier::loop_isolation(false)]
    pub fn undo(
        self,
        db: &mut Store,
        idx: u32,
        rewind: &mut Rewind,
        fetched: &Vec<(Vec<u8>, Vec<u8>)>,
        p2pkh_version: u8,
        p2sh_version: u8,
    ) -> (r: Result<(), IndexError>)
        requires
            self.wf(),
            self.parsed == 0,
            old(rewind)@.len() >= 1,
        ensures
            ({
                let si = idx as int % old(rewind)@.len() as int;
                let phase1 = spec_undo_entries(
                    old(db)@,
                    slot_evs(old(rewind)@[si]),
                    fetched_view(fetched@),
                    p2pkh_version,
                    p2sh_version,
                );
                match r {
                    Ok(()) => phase1 is Ok && exists|es: Seq<RewindEntry>|
                        final(rewind)@ == old(rewind)@.update(si, es) && spec_undo_block(
                            phase1->Ok_0,
                            self.raw@,
                            self.offset as int,
                            self.tx_count,
                            Seq::empty(),
                        ) == Ok::<_, IndexError>((final(db)@, #[trigger] slot_evs(es))),
                    Err(e) => (phase1 == Err::<Map<Seq<u8>, Seq<u8>>, IndexError>(e) || (phase1
                        is Ok && spec_undo_block(
                        phase1->Ok_0,
                        self.raw@,
                        self.offset as int,
                        self.tx_count,
                        Seq::empty(),
                    ) == Err::<(Map<Seq<u8>, Seq<u8>>, Seq<EntryV>), IndexError>(e)))
                        && final(rewind)@.len() == old(rewind)@.len(),
                }
            }),
    {
        let mut blk = self;
        let ghost m0 = db@;
        let ghost rw0 = rewind@;
        let ghost raw0 = blk.raw@;
        let ghost count0 = blk.tx_count;
        let ghost fv = fetched_view(fetched@);
        let n = rewind.depth();
        let si = (idx as usize) % n;
        let mut entries = rewind.take_slot(si);
        proof {
            assert(slot_evs(rewind@[si as int]) =~= Seq::<EntryV>::empty());
        }
        while entries.len() > 0
            invariant
                spec_undo_entries(m0, slot_evs(rw0[si as int]), fv, p2pkh_version, p2sh_version)
                    == spec_undo_entries(
                    db@,
                    slot_evs(entries@),
                    fv,
                    p2pkh_version,
                    p2sh_version,
                ),
            decreases entries@.len(),
        {
            let ghost evs_b = slot_evs(entries@);
            let e = match entries.pop() {
                Some(x) => x,
                None => {
                    proof {
                        assert(false);
                    }
                    return Err(IndexError::RpcError);
                },
            };
            proof {
                assert(entry_view(e) == evs_b.last());
                assert(slot_evs(entries@) =~= evs_b.drop_last());
            }
            match undo_entry(db, e, fetched, p2pkh_version, p2sh_version) {
                Err(err) => {
                    return Err(err);
                },
                Ok(()) => {},
            }
        }
        let ghost m_mid = db@;
        proof {
            assert(slot_evs(entries@) =~= Seq::<EntryV>::empty());
            assert(spec_undo_entries(m0, slot_evs(rw0[si as int]), fv, p2pkh_version, p2sh_version)
                == Ok::<_, IndexError>(m_mid));
        }
        let ghost offset0 = blk.offset as int;
        while blk.parsed < blk.tx_count
            invariant
                blk.wf(),
                blk.raw@ == raw0,
                blk.tx_count == count0,
                rewind@.len() == rw0.len(),
                forall|j: int|
                    0 <= j < rw0.len() && j != si as int ==> rewind@[j] == rw0.update(
                        si as int,
                        Seq::<RewindEntry>::empty(),
                    )[j],
                spec_undo_block(m_mid, raw0, offset0, count0, Seq::empty()) == spec_undo_block(
                    db@,
                    raw0,
                    blk.offset as int,
                    (count0 - blk.parsed) as u64,
                    slot_evs(rewind@[si as int]),
                ),
            decreases blk.tx_count - blk.parsed,
        {
            let ghost parsed_b = blk.parsed;
            let ghost offset_b = blk.offset as int;
            match blk.next() {
                None => {
                    proof {
                        assert(false);
                    }
                    return Err(IndexError::MalformedBlock);
                },
                Some(Err(e)) => {
                    return Err(e);
                },
                Some(Ok((tx, start, end))) => {
                    let ghost txm = tx@;
                    let ghost tb = raw0.subrange(start as int, end as int);
                    let tx_bytes = copy_range(blk.raw.as_slice(), start, end);
                    let txid = sha256d(tx_bytes.as_slice());
                    if tx.output.len() > u32::MAX as usize {
                        return Err(IndexError::MalformedBlock);
                    }
                    let out_n = tx.output.len() as u32;
                    let ghost m_tx = db@;
                    let ghost evs_tx = slot_evs(rewind@[si as int]);
                    let mut j: u32 = 0;
                    while j < out_n
                        invariant
                            j <= out_n,
                            rewind@.len() == rw0.len(),
                            forall|jj: int|
                                0 <= jj < rw0.len() && jj != si as int ==> rewind@[jj]
                                    == rw0.update(si as int, Seq::<RewindEntry>::empty())[jj],
                            spec_rem_outputs(m_tx, txid@, out_n, 0, evs_tx) == spec_rem_outputs(
                                db@,
                                txid@,
                                out_n,
                                j,
                                slot_evs(rewind@[si as int]),
                            ),
                        decreases out_n - j,
                    {
                        let id = UTXOID { txid: clone_bytes(txid.as_slice()), vout: j };
                        let ghost m_in = db@;
                        let ghost evs_in = slot_evs(rewind@[si as int]);
                        match id.rem(db, idx, rewind) {
                            Err(e) => {
                                return Err(e);
                            },
                            Ok(()) => {
                                proof {
                                    let e = choose|e: RewindEntry|
                                        #[trigger] entry_view(e) == rem_entry(
                                            m_in,
                                            id.txid@,
                                            id.vout,
                                        ) && rewind@ == old(rewind)@.update(
                                            idx as int % rw0.len() as int,
                                            old(rewind)@[idx as int % rw0.len() as int].push(e),
                                        );
                                    assert(slot_evs(rewind@[si as int]) =~= evs_in.push(
                                        rem_entry(m_in, id.txid@, id.vout),
                                    ));
                                }
                            },
                        }
                        j += 1;
                    }
                },
            }
        }
        proof {
            let es = rewind@[si as int];
            assert(rewind@ =~= rw0.update(si as int, es));
        }
        Ok(())
    }
}

} // verus!
