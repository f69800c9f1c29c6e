//! The UTXO record and the per-address index mutators. Each address owns a
//! compact array of 44-byte slot records; adding a UTXO appends a slot,
//! removing one swap-deletes it, and every stored outpoint carries a tag-2
//! back-reference to the slot that holds it.
use vstd::prelude::*;
use crate::codec::{
    addr_count_key, addr_slot_key, backref_key, count_key, raw_key, slot_value, u32_le, u64_le,
    le_u32, le_u64, lemma_key_shape, make_addr_count_key, make_addr_slot_key, make_backref_key,
    make_count_key, make_raw_key, make_slot_value, u32_to_le, u64_to_le, le_to_u32, le_to_u64,
    clone_bytes, copy_range, push_all, bytes_eq,
};
use crate::store::Store;
use crate::rewind::{Rewind, RewindEntry, entry_view};
use crate::IndexError;

verus! {

/// An outpoint: the transaction id (internal byte order) and output index.
#[derive(Debug)]
pub struct UTXOID {
    pub txid: Vec<u8>,
    pub vout: u32,
}

/// What the address index stores about one UTXO besides its outpoint.
#[derive(Debug)]
pub struct UTXOData {
    pub address: Option<Vec<u8>>,
    pub value: u64,
}

/// An unspent transaction output, with the 21-byte version-prefixed address
/// when its script pays to a public-key hash or script hash.
#[derive(Debug)]
pub struct UTXO {
    pub address: Option<Vec<u8>>,
    pub txid: Vec<u8>,
    pub vout: u32,
    pub value: u64,
}

impl UTXOID {
    pub open spec fn wf(&self) -> bool {
        self.txid@.len() == 32
    }
}

impl UTXOData {
    pub open spec fn wf(&self) -> bool {
        match self.address {
            Some(a) => a@.len() == 21,
            None => true,
        }
    }

    pub open spec fn data_view(&self) -> (Option<Seq<u8>>, u64) {
        (
            match self.address {
                Some(a) => Some(a@),
                None => None,
            },
            self.value,
        )
    }
}

impl UTXO {
    pub open spec fn wf(&self) -> bool {
        &&& self.txid@.len() == 32
        &&& match self.address {
            Some(a) => a@.len() == 21,
            None => true,
        }
    }

    pub open spec fn addr_view(&self) -> Option<Seq<u8>> {
        match self.address {
            Some(a) => Some(a@),
            None => None,
        }
    }
}

/// The slot count of an address: the tag-1 value when present and well-formed,
/// zero otherwise.
pub open spec fn addr_len(m: Map<Seq<u8>, Seq<u8>>, a: Seq<u8>) -> u32 {
    let k = addr_count_key(a);
    if m.contains_key(k) && m[k].len() == 4 {
        le_u32(m[k])
    } else {
        0
    }
}

/// Read the slot count of an address from the store.
pub fn read_addr_len(db: &Store, a: &[u8]) -> (r: u32)
    ensures
        r == addr_len(db@, a@),
{
    let k = make_addr_count_key(a);
    match db.get(k.as_slice()) {
        Some(v) => {
            if v.len() == 4 {
                le_to_u32(v.as_slice())
            } else {
                0
            }
        },
        None => 0,
    }
}

/// The store after adding one UTXO: the optional raw-transaction and
/// unspent-count records, then, when the UTXO has an address, the incremented
/// slot count, the back-reference and the new slot.
pub open spec fn spec_add(
    m: Map<Seq<u8>, Seq<u8>>,
    addr: Option<Seq<u8>>,
    t: Seq<u8>,
    v: u32,
    value: u64,
    raw: Option<(Seq<u8>, u32)>,
) -> Map<Seq<u8>, Seq<u8>> {
    let m1 = match raw {
        Some((r, c)) => m.insert(count_key(t), u32_le(c)).insert(raw_key(t), r),
        None => m,
    };
    match addr {
        None => m1,
        Some(a) => {
            let l = addr_len(m1, a);
            m1.insert(addr_count_key(a), u32_le((l + 1) as u32)).insert(
                backref_key(t, v),
                addr_slot_key(a, l),
            ).insert(addr_slot_key(a, l), slot_value(t, v, value))
        },
    }
}

impl UTXO {
    /// Write this UTXO into the index. With `raw` given, the tag-5 unspent
    /// count and tag-4 raw transaction are stored first. An address whose
    /// slot array is full is rejected rather than wrapped around.
    pub fn add(&self, db: &mut Store, raw: Option<(Vec<u8>, u32)>) -> (r: Result<(), IndexError>)
        requires
            self.wf(),
        ensures
            match r {
                Ok(()) => !(self.addr_view() is Some && addr_len(old(db)@, self.addr_view()->Some_0)
                    == u32::MAX) && final(db)@ == spec_add(
                    old(db)@,
                    self.addr_view(),
                    self.txid@,
                    self.vout,
                    self.value,
                    match raw {
                        Some((rb, c)) => Some((rb@, c)),
                        None => None,
                    },
                ),
                Err(e) => e == IndexError::AddressFull && self.addr_view() is Some && addr_len(
                    old(db)@,
                    self.addr_view()->Some_0,
                ) == u32::MAX && final(db)@ == old(db)@,
            },
    {
        let ghost m0 = db@;
        if let Some(a) = &self.address {
            let l = read_addr_len(db, a.as_slice());
            if l == u32::MAX {
                return Err(IndexError::AddressFull);
            }
        }
        if let Some((rb, c)) = raw {
            let ck = make_count_key(self.txid.as_slice());
            db.put(ck, u32_to_le(c));
            let rk = make_raw_key(self.txid.as_slice());
            db.put(rk, rb);
        }
        proof {
            lemma_key_shape(
                if self.addr_view() is Some {
                    self.addr_view()->Some_0
                } else {
                    Seq::empty()
                },
                self.txid@,
                0u32,
                self.vout,
            );
        }
        if let Some(a) = &self.address {
            proof {
                assert(addr_count_key(a@).len() == 22);
                assert(count_key(self.txid@).len() == 33);
                assert(raw_key(self.txid@).len() == 33);
                assert(addr_len(db@, a@) == addr_len(m0, a@));
            }
            let l = read_addr_len(db, a.as_slice());
            let lk = make_addr_count_key(a.as_slice());
            db.put(lk, u32_to_le(l + 1));
            let sk = make_addr_slot_key(a.as_slice(), l);
            let sk2 = clone_bytes(sk.as_slice());
            let bk = make_backref_key(self.txid.as_slice(), self.vout);
            db.put(bk, sk);
            let sv = make_slot_value(self.txid.as_slice(), self.vout, self.value);
            db.put(sk2, sv);
        }
        Ok(())
    }

    /// Decode a slot record: the address from the key, the outpoint and value
    /// from the 44-byte slot value.
    pub fn from_kv(addr_key: &[u8], addr_value: &[u8]) -> (r: Result<(UTXOID, UTXOData), IndexError>)
        ensures
            match r {
                Ok((id, data)) => {
                    &&& addr_key@.len() >= 22
                    &&& addr_value@.len() == 44
                    &&& id.txid@ == addr_value@.subrange(0, 32)
                    &&& id.vout == le_u32(addr_value@.subrange(32, 36))
                    &&& data.data_view() == (
                        Some(addr_key@.subrange(1, 22)),
                        le_u64(addr_value@.subrange(36, 44)),
                    )
                    &&& id.wf()
                    &&& data.wf()
                },
                Err(e) => {
                    &&& (e == IndexError::MalformedKey || e == IndexError::MalformedValue)
                    &&& (e == IndexError::MalformedKey <==> addr_key@.len() < 22)
                    &&& (e == IndexError::MalformedValue <==> addr_key@.len() >= 22
                        && addr_value@.len() != 44)
                },
            },
    {
        if addr_key.len() < 22 {
            return Err(IndexError::MalformedKey);
        }
        if addr_value.len() != 44 {
            return Err(IndexError::MalformedValue);
        }
        let address = copy_range(addr_key, 1, 22);
        let txid = copy_range(addr_value, 0, 32);
        let vout_bytes = copy_range(addr_value, 32, 36);
        let value_bytes = copy_range(addr_value, 36, 44);
        Ok(
            (
                UTXOID { txid, vout: le_to_u32(vout_bytes.as_slice()) },
                UTXOData {
                    address: Some(address),
                    value: le_to_u64(value_bytes.as_slice()),
                },
            ),
        )
    }

    /// Rebuild a UTXO from an outpoint and its stored data.
    pub fn from_parts(id: UTXOID, data: UTXOData) -> (r: UTXO)
        ensures
            r.txid@ == id.txid@,
            r.vout == id.vout,
            r.addr_view() == data.data_view().0,
            r.value == data.data_view().1,
    {
        UTXO { address: data.address, txid: id.txid, vout: id.vout, value: data.value }
    }

    /// Split a UTXO into its outpoint and its stored data.
    pub fn into_parts(self) -> (r: (UTXOID, UTXOData))
        ensures
            r.0.txid@ == self.txid@,
            r.0.vout == self.vout,
            r.1.data_view() == (self.addr_view(), self.value),
    {
        (
            UTXOID { txid: self.txid, vout: self.vout },
            UTXOData { address: self.address, value: self.value },
        )
    }
}

/// The store after the unspent-count step of a removal: the tag-5 count is
/// deleted when it reaches zero and decremented otherwise.
pub open spec fn rem_m1(m: Map<Seq<u8>, Seq<u8>>, t: Seq<u8>) -> Map<Seq<u8>, Seq<u8>>
    recommends
        m.contains_key(count_key(t)),
        m[count_key(t)].len() == 4,
        le_u32(m[count_key(t)]) >= 1,
{
    let c = le_u32(m[count_key(t)]);
    if c == 1 {
        m.remove(count_key(t))
    } else {
        m.insert(count_key(t), u32_le((c - 1) as u32))
    }
}

/// Exactly when a removal fails, and how: a missing or unreadable unspent
/// count, a back-reference that is not a 26-byte slot key, a missing or
/// unreadable slot count, an empty slot array, or a slot record that is not
/// 44 bytes.
pub open spec fn rem_err(m: Map<Seq<u8>, Seq<u8>>, t: Seq<u8>, v: u32) -> Option<IndexError> {
    let ck = count_key(t);
    if !m.contains_key(ck) {
        Some(IndexError::MissingRecord)
    } else if m[ck].len() != 4 {
        Some(IndexError::MalformedValue)
    } else if le_u32(m[ck]) == 0 {
        Some(IndexError::MalformedValue)
    } else {
        let m1 = rem_m1(m, t);
        let bk = backref_key(t, v);
        if !m1.contains_key(bk) {
            None
        } else {
            let ak = m1[bk];
            if ak.len() != 26 {
                Some(IndexError::MalformedKey)
            } else {
                let lk = ak.subrange(0, 22);
                if !m1.contains_key(lk) {
                    Some(IndexError::MissingRecord)
                } else if m1[lk].len() != 4 {
                    Some(IndexError::MalformedValue)
                } else if le_u32(m1[lk]) == 0 {
                    Some(IndexError::MissingRecord)
                } else if m1.contains_key(ak) && m1[ak].len() != 44 {
                    Some(IndexError::MalformedValue)
                } else {
                    let last = (le_u32(m1[lk]) - 1) as u32;
                    let rk = lk + u32_le(last);
                    if u32_le(last) != ak.subrange(22, 26) && m1.contains_key(rk) && m1[rk].len()
                        != 44 {
                        Some(IndexError::MalformedValue)
                    } else {
                        None
                    }
                }
            }
        }
    }
}

/// The store after removing one outpoint. When the outpoint is tracked, the
/// last slot of its address is moved into the victim's place (and its
/// back-reference redirected), the last slot and the victim's back-reference
/// are deleted, and the slot count is decremented.
pub open spec fn rem_map(m: Map<Seq<u8>, Seq<u8>>, t: Seq<u8>, v: u32) -> Map<Seq<u8>, Seq<u8>>
    recommends
        rem_err(m, t, v) is None,
{
    let m1 = rem_m1(m, t);
    let bk = backref_key(t, v);
    if !m1.contains_key(bk) {
        m1
    } else {
        let ak = m1[bk];
        let lk = ak.subrange(0, 22);
        let last = (le_u32(m1[lk]) - 1) as u32;
        let rk = lk + u32_le(last);
        let m2 = if u32_le(last) != ak.subrange(22, 26) && m1.contains_key(rk) {
            let rval = m1[rk];
            m1.insert(backref_key(rval.subrange(0, 32), le_u32(rval.subrange(32, 36))), ak).insert(
                ak,
                rval,
            )
        } else {
            m1
        };
        m2.remove(rk).remove(bk).insert(lk, u32_le(last))
    }
}

/// The undo record of a removal: the victim slot's outpoint and data when the
/// spend was tracked, the spent outpoint alone otherwise, with the cached raw
/// transaction either way.
pub open spec fn rem_entry(m: Map<Seq<u8>, Seq<u8>>, t: Seq<u8>, v: u32) -> (
    (Seq<u8>, u32),
    Option<(Option<Seq<u8>>, u64)>,
    Option<Seq<u8>>,
) {
    let raw = if m.contains_key(raw_key(t)) {
        Some(m[raw_key(t)])
    } else {
        None
    };
    let m1 = rem_m1(m, t);
    let bk = backref_key(t, v);
    if m1.contains_key(bk) && m1.contains_key(m1[bk]) {
        let ak = m1[bk];
        let vv = m1[ak];
        (
            (vv.subrange(0, 32), le_u32(vv.subrange(32, 36))),
            Some((Some(ak.subrange(1, 22)), le_u64(vv.subrange(36, 44)))),
            raw,
        )
    } else {
        ((t, v), None, raw)
    }
}

impl UTXOID {
    /// Remove this outpoint from the index, recording what a later undo needs
    /// into the rewind slot for `idx`. A spend whose address was never
    /// tracked only decrements the unspent count. On failure nothing is
    /// changed.
    pub fn rem(self, db: &mut Store, idx: u32, rewind: &mut Rewind) -> (r: Result<
        (),
        IndexError,
    >)
        requires
            self.wf(),
            old(rewind)@.len() >= 1,
        ensures
            match r {
                Ok(()) => {
                    &&& rem_err(old(db)@, self.txid@, self.vout) is None
                    &&& final(db)@ == rem_map(old(db)@, self.txid@, self.vout)
                    &&& exists|e: RewindEntry|
                        #[trigger] entry_view(e) == rem_entry(old(db)@, self.txid@, self.vout)
                            && final(rewind)@ == old(rewind)@.update(
                            idx as int % old(rewind)@.len() as int,
                            old(rewind)@[idx as int % old(rewind)@.len() as int].push(e),
                        )
                },
                Err(e) => {
                    &&& rem_err(old(db)@, self.txid@, self.vout) == Some(e)
                    &&& final(db)@ == old(db)@
                    &&& final(rewind)@ == old(rewind)@
                },
            },
    {
        let ghost m = db@;
        let ghost ts = self.txid@;
        proof {
            lemma_key_shape(Seq::empty(), ts, 0u32, self.vout);
        }
        let t = self.txid.as_slice();
        let ck = make_count_key(t);
        let cnt_bytes = match db.get(ck.as_slice()) {
            None => {
                return Err(IndexError::MissingRecord);
            },
            Some(c) => c,
        };
        if cnt_bytes.len() != 4 {
            return Err(IndexError::MalformedValue);
        }
        let cnt = le_to_u32(cnt_bytes.as_slice());
        if cnt == 0 {
            return Err(IndexError::MalformedValue);
        }
        let rwk = make_raw_key(t);
        let raw = db.get(rwk.as_slice());
        let bk = make_backref_key(t, self.vout);
        let backref_val = db.get(bk.as_slice());
        proof {
            assert(count_key(ts).len() == 33);
            assert(backref_key(ts, self.vout).len() == 37);
            assert(rem_m1(m, ts).contains_key(backref_key(ts, self.vout)) == m.contains_key(
                backref_key(ts, self.vout),
            ));
        }
        match backref_val {
            None => {
                if cnt == 1 {
                    db.delete(ck);
                } else {
                    db.put(ck, u32_to_le(cnt - 1));
                }
                let entry = RewindEntry {
                    id: UTXOID { txid: clone_bytes(t), vout: self.vout },
                    data: None,
                    raw,
                };
                let slot = (idx as usize) % rewind.depth();
                rewind.push_entry(slot, entry);
                proof {
                    assert(db@ == rem_m1(m, ts));
                    assert(entry_view(entry) == rem_entry(m, ts, self.vout));
                }
                Ok(())
            },
            Some(ak_bytes) => {
                if ak_bytes.len() != 26 {
                    return Err(IndexError::MalformedKey);
                }
                let lk = copy_range(ak_bytes.as_slice(), 0, 22);
                proof {
                    assert(lk@ != count_key(ts));
                }
                let len_bytes = match db.get(lk.as_slice()) {
                    None => {
                        return Err(IndexError::MissingRecord);
                    },
                    Some(lb) => lb,
                };
                if len_bytes.len() != 4 {
                    return Err(IndexError::MalformedValue);
                }
                let l = le_to_u32(len_bytes.as_slice());
                if l == 0 {
                    return Err(IndexError::MissingRecord);
                }
                proof {
                    assert(ak_bytes@ != count_key(ts));
                }
                let victim = db.get(ak_bytes.as_slice());
                let entry: RewindEntry = match victim {
                    Some(vv) => {
                        if vv.len() != 44 {
                            return Err(IndexError::MalformedValue);
                        }
                        let vt = copy_range(vv.as_slice(), 0, 32);
                        let vvout_b = copy_range(vv.as_slice(), 32, 36);
                        let vvout = le_to_u32(vvout_b.as_slice());
                        let addr = copy_range(ak_bytes.as_slice(), 1, 22);
                        let val_b = copy_range(vv.as_slice(), 36, 44);
                        let val = le_to_u64(val_b.as_slice());
                        RewindEntry {
                            id: UTXOID { txid: vt, vout: vvout },
                            data: Some(UTXOData { address: Some(addr), value: val }),
                            raw,
                        }
                    },
                    None => RewindEntry {
                        id: UTXOID { txid: clone_bytes(t), vout: self.vout },
                        data: None,
                        raw,
                    },
                };
                let last = l - 1;
                let last_le = u32_to_le(last);
                let idx_bytes = copy_range(ak_bytes.as_slice(), 22, 26);
                let need_swap = !bytes_eq(idx_bytes.as_slice(), last_le.as_slice());
                let mut rk = clone_bytes(lk.as_slice());
                push_all(&mut rk, last_le.as_slice());
                proof {
                    assert(rk@ =~= ak_bytes@.subrange(0, 22) + u32_le(last));
                    assert(rk@ != count_key(ts));
                }
                let replacement: Option<Vec<u8>> = if need_swap {
                    db.get(rk.as_slice())
                } else {
                    None
                };
                if let Some(rv) = &replacement {
                    if rv.len() != 44 {
                        return Err(IndexError::MalformedValue);
                    }
                }
                // Everything is validated: apply the writes.
                if cnt == 1 {
                    db.delete(ck);
                } else {
                    db.put(ck, u32_to_le(cnt - 1));
                }
                proof {
                    assert(db@ == rem_m1(m, ts));
                    assert(entry_view(entry) == rem_entry(m, ts, self.vout));
                }
                let slot = (idx as usize) % rewind.depth();
                rewind.push_entry(slot, entry);
                if need_swap {
                    if let Some(rv) = replacement {
                        let rt = copy_range(rv.as_slice(), 0, 32);
                        let rvout_b = copy_range(rv.as_slice(), 32, 36);
                        let rvout = le_to_u32(rvout_b.as_slice());
                        let rbk = make_backref_key(rt.as_slice(), rvout);
                        db.put(rbk, clone_bytes(ak_bytes.as_slice()));
                        db.put(clone_bytes(ak_bytes.as_slice()), rv);
                    }
                }
                db.delete(rk);
                db.delete(bk);
                db.put(lk, last_le);
                proof {
                    assert(final(db)@ == rem_map(m, ts, self.vout));
                }
                Ok(())
            },
        }
    }
}

/// A pay-to-public-key-hash output script.
pub open spec fn script_is_p2pkh(s: Seq<u8>) -> bool {
    s.len() == 25 && s[0] == 0x76u8 && s[1] == 0xa9u8 && s[2] == 0x14u8 && s[23] == 0x88u8
        && s[24] == 0xacu8
}

/// A pay-to-script-hash output script.
pub open spec fn script_is_p2sh(s: Seq<u8>) -> bool {
    s.len() == 23 && s[0] == 0xa9u8 && s[1] == 0x14u8 && s[22] == 0x87u8
}

/// The 21-byte version-prefixed address of an output script, when it has one.
pub open spec fn output_address(s: Seq<u8>, p2pkh_version: u8, p2sh_version: u8) -> Option<
    Seq<u8>,
> {
    if script_is_p2pkh(s) {
        Some(seq![p2pkh_version] + s.subrange(3, 23))
    } else if script_is_p2sh(s) {
        Some(seq![p2sh_version] + s.subrange(2, 22))
    } else {
        None
    }
}

impl UTXO {
    /// Build the UTXO of one transaction output, deriving the address from
    /// the output script's pay-to-public-key-hash or pay-to-script-hash form.
    pub fn from_txout(
        txid: &[u8],
        script: &[u8],
        value: u64,
        vout: u32,
        p2pkh_version: u8,
        p2sh_version: u8,
    ) -> (r: UTXO)
        requires
            txid@.len() == 32,
        ensures
            r.wf(),
            r.txid@ == txid@,
            r.vout == vout,
            r.value == value,
            r.addr_view() == output_address(script@, p2pkh_version, p2sh_version),
    {
        let is_p2pkh: bool = script.len() == 25 && script[0] == 0x76 && script[1] == 0xa9
            && script[2] == 0x14 && script[23] == 0x88 && script[24] == 0xac;
        let is_p2sh: bool = script.len() == 23 && script[0] == 0xa9 && script[1] == 0x14
            && script[22] == 0x87;
        let address: Option<Vec<u8>> = if is_p2pkh {
            let mut a: Vec<u8> = Vec::new();
            a.push(p2pkh_version);
            let h = copy_range(script, 3, 23);
            push_all(&mut a, h.as_slice());
            proof {
                assert(a@ =~= seq![p2pkh_version] + script@.subrange(3, 23));
            }
            Some(a)
        } else if is_p2sh {
            let mut a: Vec<u8> = Vec::new();
            a.push(p2sh_version);
            let h = copy_range(script, 2, 22);
            push_all(&mut a, h.as_slice());
            proof {
                assert(a@ =~= seq![p2sh_version] + script@.subrange(2, 22));
            }
            Some(a)
        } else {
            None
        };
        UTXO { address, txid: clone_bytes(txid), vout, value }
    }
}

} // verus!
