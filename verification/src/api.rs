//! The read API: address balance and UTXO selection, dispatched from an HTTP
//! path and query string. Addresses arrive base58check-encoded; wire output
//! integers are big-endian, unlike the little-endian stored form.
use vstd::prelude::*;
use crate::codec::{
    addr_slot_key, raw_key, le_u32, le_u64, u32_be, u64_be, le_to_u32, le_to_u64, u32_to_be,
    u64_to_be, make_addr_slot_key, make_raw_key, copy_range, clone_bytes, push_all, bytes_eq,
};
use crate::store::Store;
use crate::utxo::addr_len;
use crate::utxo::read_addr_len;
use crate::ext::{base58check_of, base58check_decode, query_pairs_of, query_pairs};
use crate::IndexError;

verus! {

/// One selected UTXO as the query returns it.
#[derive(Debug)]
pub struct UTXOData {
    pub txid: Vec<u8>,
    pub vout: u32,
    pub value: u64,
    pub raw: Vec<u8>,
}

impl View for UTXOData {
    type V = (Seq<u8>, u32, u64, Seq<u8>);

    open spec fn view(&self) -> (Seq<u8>, u32, u64, Seq<u8>) {
        (self.txid@, self.vout, self.value, self.raw@)
    }
}

/// A query response: a balance or a UTXO selection.
#[derive(Debug)]
pub enum UTXORes {
    Balance(u64),
    UTXOs(Vec<UTXOData>),
}

pub open spec fn balance_path() -> Seq<u8> {
    seq![47u8, 98u8, 97u8, 108u8, 97u8, 110u8, 99u8, 101u8]
}

pub open spec fn utxos_path() -> Seq<u8> {
    seq![47u8, 117u8, 116u8, 120u8, 111u8, 115u8]
}

pub open spec fn param_address() -> Seq<u8> {
    seq![97u8, 100u8, 100u8, 114u8, 101u8, 115u8, 115u8]
}

pub open spec fn param_amount() -> Seq<u8> {
    seq![97u8, 109u8, 111u8, 117u8, 110u8, 116u8]
}

pub open spec fn param_min_count() -> Seq<u8> {
    seq![109u8, 105u8, 110u8, 67u8, 111u8, 117u8, 110u8, 116u8]
}

fn make_balance_path() -> (r: Vec<u8>)
    ensures
        r@ == balance_path(),
{
    let v: Vec<u8> = vec![47u8, 98u8, 97u8, 108u8, 97u8, 110u8, 99u8, 101u8];
    proof {
        assert(v@ =~= balance_path());
    }
    v
}

fn make_utxos_path() -> (r: Vec<u8>)
    ensures
        r@ == utxos_path(),
{
    let v: Vec<u8> = vec![47u8, 117u8, 116u8, 120u8, 111u8, 115u8];
    proof {
        assert(v@ =~= utxos_path());
    }
    v
}

fn make_param_address() -> (r: Vec<u8>)
    ensures
        r@ == param_address(),
{
    let v: Vec<u8> = vec![97u8, 100u8, 100u8, 114u8, 101u8, 115u8, 115u8];
    proof {
        assert(v@ =~= param_address());
    }
    v
}

fn make_param_amount() -> (r: Vec<u8>)
    ensures
        r@ == param_amount(),
{
    let v: Vec<u8> = vec![97u8, 109u8, 111u8, 117u8, 110u8, 116u8];
    proof {
        assert(v@ =~= param_amount());
    }
    v
}

fn make_param_min_count() -> (r: Vec<u8>)
    ensures
        r@ == param_min_count(),
{
    let v: Vec<u8> = vec![109u8, 105u8, 110u8, 67u8, 111u8, 117u8, 110u8, 116u8];
    proof {
        assert(v@ =~= param_min_count());
    }
    v
}

/// The pairs of a parsed query as plain values.
pub open spec fn pairs_view(pairs: Seq<(Vec<u8>, Vec<u8>)>) -> Seq<(Seq<u8>, Seq<u8>)> {
    pairs.map_values(|p: (Vec<u8>, Vec<u8>)| (p.0@, p.1@))
}

/// The value of a query parameter; with a repeated name the last wins.
pub open spec fn lookup_param(pairs: Seq<(Seq<u8>, Seq<u8>)>, name: Seq<u8>) -> Option<Seq<u8>>
    decreases pairs.len(),
{
    if pairs.len() == 0 {
        None
    } else if pairs.last().0 == name {
        Some(pairs.last().1)
    } else {
        lookup_param(pairs.drop_last(), name)
    }
}

#[verifier::loop_isolation(false)]
fn find_param(pairs: &Vec<(Vec<u8>, Vec<u8>)>, name: &[u8]) -> (r: Option<Vec<u8>>)
    ensures
        match r {
            Some(v) => lookup_param(pairs_view(pairs@), name@) == Some(v@),
            None => lookup_param(pairs_view(pairs@), name@) is None,
        },
{
    let n: usize = pairs.len();
    let mut i: usize = n;
    proof {
        assert(pairs_view(pairs@).take(n as int) =~= pairs_view(pairs@));
    }
    while i > 0
        invariant
            i <= n,
            n == pairs@.len(),
            lookup_param(pairs_view(pairs@), name@) == lookup_param(
                pairs_view(pairs@).take(i as int),
                name@,
            ),
        decreases i,
    {
        proof {
            assert(pairs_view(pairs@).take(i as int).last() == pairs_view(pairs@)[i - 1]);
            assert(pairs_view(pairs@).take(i as int).drop_last() =~= pairs_view(pairs@).take(
                i as int - 1,
            ));
        }
        i -= 1;
        if bytes_eq(pairs[i].0.as_slice(), name) {
            return Some(clone_bytes(pairs[i].1.as_slice()));
        }
    }
    proof {
        assert(pairs_view(pairs@).take(0) =~= Seq::<(Seq<u8>, Seq<u8>)>::empty());
    }
    None
}

// --- Decimal parsing of query integers. ---

pub open spec fn is_digit(b: u8) -> bool {
    48 <= b <= 57
}

pub open spec fn all_digits(s: Seq<u8>) -> bool {
    forall|i: int| 0 <= i < s.len() ==> is_digit(#[trigger] s[i])
}

pub open spec fn dec_val(s: Seq<u8>) -> int
    decreases s.len(),
{
    if s.len() == 0 {
        0
    } else {
        dec_val(s.drop_last()) * 10 + (s.last() - 48)
    }
}

/// The decimal value of a byte string: optional leading `+`, at least one
/// digit, no value past `u64::MAX`.
pub open spec fn spec_parse_u64(s: Seq<u8>) -> Option<u64> {
    let d = if s.len() >= 1 && s[0] == 43 {
        s.subrange(1, s.len() as int)
    } else {
        s
    };
    if d.len() == 0 || !all_digits(d) || dec_val(d) > u64::MAX {
        None
    } else {
        Some(dec_val(d) as u64)
    }
}

proof fn lemma_dec_val_nonneg(s: Seq<u8>)
    requires
        all_digits(s),
    ensures
        dec_val(s) >= 0,
    decreases s.len(),
{
    if s.len() > 0 {
        assert(all_digits(s.drop_last()));
        lemma_dec_val_nonneg(s.drop_last());
        assert(is_digit(s.last()));
    }
}

proof fn lemma_dec_val_mono(s: Seq<u8>, j: int)
    requires
        all_digits(s),
        0 <= j <= s.len(),
    ensures
        dec_val(s.take(j)) <= dec_val(s),
    decreases s.len(),
{
    if j < s.len() {
        let s2 = s.drop_last();
        assert(all_digits(s2));
        assert(s.take(j) =~= s2.take(j));
        lemma_dec_val_mono(s2, j);
        lemma_dec_val_nonneg(s2);
        assert(is_digit(s.last()));
        assert(dec_val(s) == dec_val(s2) * 10 + (s.last() - 48));
        assert(dec_val(s2) * 10 >= dec_val(s2));
    } else {
        assert(s.take(j) =~= s);
    }
}

/// Parse a decimal `u64`, rejecting junk and overflow.
#[verifier::loop_isolation(false)]
pub fn parse_u64(s: &[u8]) -> (r: Option<u64>)
    ensures
        r == spec_parse_u64(s@),
{
    let start: usize = if s.len() >= 1 && s[0] == 43 {
        1
    } else {
        0
    };
    let ghost d = if s@.len() >= 1 && s@[0] == 43 {
        s@.subrange(1, s@.len() as int)
    } else {
        s@
    };
    proof {
        assert(d =~= s@.subrange(start as int, s@.len() as int));
    }
    if s.len() == start {
        return None;
    }
    let mut acc: u64 = 0;
    let mut i: usize = start;
    while i < s.len()
        invariant
            start <= i <= s@.len(),
            d == s@.subrange(start as int, s@.len() as int),
            d.len() == s@.len() - start,
            all_digits(d.take(i - start)),
            acc == dec_val(d.take(i - start)),
        decreases s@.len() - i,
    {
        let b = s[i];
        proof {
            assert(d[i - start] == s@[i as int]);
        }
        if b < 48 || b > 57 {
            proof {
                assert(!is_digit(d[i - start]));
                assert(!all_digits(d));
            }
            return None;
        }
        let dd = (b - 48) as u64;
        let next = match acc.checked_mul(10) {
            Some(m) => m.checked_add(dd),
            None => None,
        };
        match next {
            None => {
                proof {
                    assert(d.take(i - start + 1).drop_last() =~= d.take(i - start));
                    assert(d.take(i - start + 1).last() == d[i - start]);
                    assert(dec_val(d.take(i - start + 1)) == acc * 10 + (b - 48));
                    assert(dec_val(d.take(i - start + 1)) > u64::MAX);
                    assert(all_digits(d.take(i - start + 1)));
                    if all_digits(d) {
                        lemma_dec_val_mono(d, i - start + 1);
                    }
                }
                return None;
            },
            Some(a2) => {
                proof {
                    assert(d.take(i - start + 1).drop_last() =~= d.take(i - start));
                    assert(d.take(i - start + 1).last() == d[i - start]);
                    assert(all_digits(d.take(i - start + 1)));
                }
                acc = a2;
                i += 1;
            },
        }
    }
    proof {
        assert(d.take(s@.len() - start) =~= d);
    }
    Some(acc)
}

// --- The balance walk. ---

/// Walk the slots [i, l) of an address accumulating the values; fails on a
/// missing or short slot record, or when the sum leaves `u64`.
pub open spec fn spec_bal_walk(
    m: Map<Seq<u8>, Seq<u8>>,
    a: Seq<u8>,
    l: u32,
    i: u32,
    acc: u64,
) -> Result<u64, IndexError>
    decreases l - i,
{
    if i >= l {
        Ok(acc)
    } else {
        let k = addr_slot_key(a, i);
        if !m.contains_key(k) || m[k].len() < 44 {
            Err(IndexError::MissingRecord)
        } else {
            let v = le_u64(m[k].subrange(36, 44));
            if acc + v > u64::MAX {
                Err(IndexError::MalformedValue)
            } else {
                spec_bal_walk(m, a, l, (i + 1) as u32, (acc + v) as u64)
            }
        }
    }
}

/// The sum of the slot values of an address over [i, l).
pub open spec fn spec_balance_sum(m: Map<Seq<u8>, Seq<u8>>, a: Seq<u8>, i: u32, l: u32) -> int
    decreases l - i,
{
    if i >= l {
        0
    } else {
        le_u64(m[addr_slot_key(a, i)].subrange(36, 44)) + spec_balance_sum(m, a, (i + 1) as u32, l)
    }
}

/// A successful balance walk returns exactly the sum of the slot values of
/// the address over [i, l), on top of what it starts from.
pub proof fn lemma_balance_is_sum(m: Map<Seq<u8>, Seq<u8>>, a: Seq<u8>, l: u32, i: u32, acc: u64)
    requires
        spec_bal_walk(m, a, l, i, acc) is Ok,
    ensures
        spec_bal_walk(m, a, l, i, acc)->Ok_0 == acc + spec_balance_sum(m, a, i, l),
    decreases l - i,
{
    if i < l {
        let k = addr_slot_key(a, i);
        let v = le_u64(m[k].subrange(36, 44));
        lemma_balance_is_sum(m, a, l, (i + 1) as u32, (acc + v) as u64);
    }
}

/// The balance of a base58check address: the sum of the value fields across
/// its slots, zero when it has none.
#[verifier::loop_isolation(false)]
pub fn get_balance(db: &Store, address: &[u8]) -> (r: Result<u64, IndexError>)
    ensures
        ({
            let d = base58check_of(address@);
            match r {
                Ok(b) => d is Some && d->Some_0.len() == 21 && spec_bal_walk(
                    db@,
                    d->Some_0,
                    addr_len(db@, d->Some_0),
                    0,
                    0,
                ) == Ok::<u64, IndexError>(b),
                Err(e) => {
                    if d is None || d->Some_0.len() != 21 {
                        e == IndexError::InvalidAddress
                    } else {
                        spec_bal_walk(db@, d->Some_0, addr_len(db@, d->Some_0), 0, 0)
                            == Err::<u64, IndexError>(e)
                    }
                },
            }
        }),
{
    let av = match base58check_decode(address) {
        None => {
            return Err(IndexError::InvalidAddress);
        },
        Some(v) => v,
    };
    if av.len() != 21 {
        return Err(IndexError::InvalidAddress);
    }
    let l = read_addr_len(db, av.as_slice());
    let mut acc: u64 = 0;
    let mut i: u32 = 0;
    while i < l
        invariant
            i <= l,
            av@.len() == 21,
            l == addr_len(db@, av@),
            spec_bal_walk(db@, av@, l, 0, 0) == spec_bal_walk(db@, av@, l, i, acc),
        decreases l - i,
    {
        let sk = make_addr_slot_key(av.as_slice(), i);
        let sv = match db.get(sk.as_slice()) {
            None => {
                return Err(IndexError::MissingRecord);
            },
            Some(v) => v,
        };
        if sv.len() < 44 {
            return Err(IndexError::MissingRecord);
        }
        let vb = copy_range(sv.as_slice(), 36, 44);
        let v = le_to_u64(vb.as_slice());
        match acc.checked_add(v) {
            None => {
                return Err(IndexError::MalformedValue);
            },
            Some(a2) => {
                acc = a2;
            },
        }
        i += 1;
    }
    Ok(acc)
}

// --- The UTXO-selection walk. ---

/// Walk the slots of an address in order, collecting each visited UTXO with
/// its raw transaction, and stop as soon as at least `min_count` slots were
/// visited and the accumulated value reaches `amount`.
pub open spec fn spec_utxo_walk(
    m: Map<Seq<u8>, Seq<u8>>,
    a: Seq<u8>,
    l: u32,
    i: u32,
    bal: u64,
    acc: Seq<(Seq<u8>, u32, u64, Seq<u8>)>,
    amount: u64,
    min_count: u64,
) -> Result<Seq<(Seq<u8>, u32, u64, Seq<u8>)>, IndexError>
    decreases l - i,
{
    if i >= l {
        Ok(acc)
    } else {
        let k = addr_slot_key(a, i);
        if !m.contains_key(k) || m[k].len() < 44 {
            Err(IndexError::MissingRecord)
        } else {
            let sv = m[k];
            let txid = sv.subrange(0, 32);
            let vout = le_u32(sv.subrange(32, 36));
            let value = le_u64(sv.subrange(36, 44));
            if !m.contains_key(raw_key(txid)) {
                Err(IndexError::MissingRecord)
            } else if bal + value > u64::MAX {
                Err(IndexError::MalformedValue)
            } else {
                let nb = (bal + value) as u64;
                let acc2 = acc.push((txid, vout, value, m[raw_key(txid)]));
                if i as u64 >= min_count && nb >= amount {
                    Ok(acc2)
                } else {
                    spec_utxo_walk(m, a, l, (i + 1) as u32, nb, acc2, amount, min_count)
                }
            }
        }
    }
}

/// Select UTXOs of an address until both thresholds pass; returns every UTXO
/// visited.
#[verifier::loop_isolation(false)]
pub fn get_utxos(db: &Store, address: &[u8], amount: u64, min_count: Option<u64>) -> (r: Result<
    Vec<UTXOData>,
    IndexError,
>)
    ensures
        ({
            let d = base58check_of(address@);
            let mc = match min_count {
                Some(c) => c,
                None => 20u64,
            };
            match r {
                Ok(us) => d is Some && d->Some_0.len() == 21 && spec_utxo_walk(
                    db@,
                    d->Some_0,
                    addr_len(db@, d->Some_0),
                    0,
                    0,
                    Seq::empty(),
                    amount,
                    mc,
                ) == Ok::<_, IndexError>(us@.map_values(|u: UTXOData| u@)),
                Err(e) => {
                    if d is None || d->Some_0.len() != 21 {
                        e == IndexError::InvalidAddress
                    } else {
                        spec_utxo_walk(
                            db@,
                            d->Some_0,
                            addr_len(db@, d->Some_0),
                            0,
                            0,
                            Seq::empty(),
                            amount,
                            mc,
                        ) == Err::<Seq<(Seq<u8>, u32, u64, Seq<u8>)>, IndexError>(e)
                    }
                },
            }
        }),
{
    let mc: u64 = match min_count {
        Some(c) => c,
        None => 20,
    };
    let av = match base58check_decode(address) {
        None => {
            return Err(IndexError::InvalidAddress);
        },
        Some(v) => v,
    };
    if av.len() != 21 {
        return Err(IndexError::InvalidAddress);
    }
    let l = read_addr_len(db, av.as_slice());
    let mut bal: u64 = 0;
    let mut utxos: Vec<UTXOData> = Vec::new();
    let mut i: u32 = 0;
    proof {
        assert(utxos@.map_values(|u: UTXOData| u@) =~= Seq::<(Seq<u8>, u32, u64, Seq<u8>)>::empty());
    }
    while i < l
        invariant
            i <= l,
            av@.len() == 21,
            l == addr_len(db@, av@),
            spec_utxo_walk(db@, av@, l, 0, 0, Seq::empty(), amount, mc) == spec_utxo_walk(
                db@,
                av@,
                l,
                i,
                bal,
                utxos@.map_values(|u: UTXOData| u@),
                amount,
                mc,
            ),
        decreases l - i,
    {
        let sk = make_addr_slot_key(av.as_slice(), i);
        let sv = match db.get(sk.as_slice()) {
            None => {
                return Err(IndexError::MissingRecord);
            },
            Some(v) => v,
        };
        if sv.len() < 44 {
            return Err(IndexError::MissingRecord);
        }
        let txid = copy_range(sv.as_slice(), 0, 32);
        let vout_b = copy_range(sv.as_slice(), 32, 36);
        let vout = le_to_u32(vout_b.as_slice());
        let val_b = copy_range(sv.as_slice(), 36, 44);
        let value = le_to_u64(val_b.as_slice());
        let rk = make_raw_key(txid.as_slice());
        let raw = match db.get(rk.as_slice()) {
            None => {
                return Err(IndexError::MissingRecord);
            },
            Some(v) => v,
        };
        let nb = match bal.checked_add(value) {
            None => {
                return Err(IndexError::MalformedValue);
            },
            Some(b2) => b2,
        };
        bal = nb;
        let ghost prev = utxos@.map_values(|u: UTXOData| u@);
        let u = UTXOData { txid, vout, value, raw };
        let ghost uv = u@;
        utxos.push(u);
        proof {
            assert(utxos@.map_values(|x: UTXOData| x@) =~= prev.push(uv));
        }
        if (i as u64) >= mc && bal >= amount {
            return Ok(utxos);
        }
        i += 1;
    }
    Ok(utxos)
}

// --- Request dispatch. ---

/// What a request returns: a balance (`true`), a selection (`false`), or the
/// error, as plain values.
pub open spec fn spec_handle(m: Map<Seq<u8>, Seq<u8>>, path: Seq<u8>, q: Seq<char>) -> Result<
    (bool, u64, Seq<(Seq<u8>, u32, u64, Seq<u8>)>),
    IndexError,
> {
    let pairs = query_pairs_of(q);
    if path == balance_path() {
        match lookup_param(pairs, param_address()) {
            None => Err(IndexError::MissingParam),
            Some(ab) => match base58check_of(ab) {
                None => Err(IndexError::InvalidAddress),
                Some(av) => {
                    if av.len() != 21 {
                        Err(IndexError::InvalidAddress)
                    } else {
                        match spec_bal_walk(m, av, addr_len(m, av), 0, 0) {
                            Err(e) => Err(e),
                            Ok(b) => Ok((true, b, Seq::empty())),
                        }
                    }
                },
            },
        }
    } else if path == utxos_path() {
        match lookup_param(pairs, param_address()) {
            None => Err(IndexError::MissingParam),
            Some(ab) => match lookup_param(pairs, param_amount()) {
                None => Err(IndexError::MissingParam),
                Some(amb) => match spec_parse_u64(amb) {
                    None => Err(IndexError::MalformedValue),
                    Some(amount) => {
                        let mc = match lookup_param(pairs, param_min_count()) {
                            None => Some(20u64),
                            Some(mb) => spec_parse_u64(mb),
                        };
                        match mc {
                            None => Err(IndexError::MalformedValue),
                            Some(mcv) => match base58check_of(ab) {
                                None => Err(IndexError::InvalidAddress),
                                Some(av) => {
                                    if av.len() != 21 {
                                        Err(IndexError::InvalidAddress)
                                    } else {
                                        match spec_utxo_walk(
                                            m,
                                            av,
                                            addr_len(m, av),
                                            0,
                                            0,
                                            Seq::empty(),
                                            amount,
                                            mcv,
                                        ) {
                                            Err(e) => Err(e),
                                            Ok(us) => Ok((false, 0u64, us)),
                                        }
                                    }
                                },
                            },
                        }
                    },
                },
            },
        }
    } else {
        Err(IndexError::UnknownEndpoint)
    }
}

/// Serve one request given its path and raw query string.
pub fn handle_request(db: &Store, path: &[u8], query: &str) -> (r: Result<UTXORes, IndexError>)
    ensures
        match r {
            Ok(UTXORes::Balance(b)) => spec_handle(db@, path@, query@) == Ok::<
                _,
                IndexError,
            >((true, b, Seq::<(Seq<u8>, u32, u64, Seq<u8>)>::empty())),
            Ok(UTXORes::UTXOs(us)) => spec_handle(db@, path@, query@) == Ok::<_, IndexError>(
                (false, 0u64, us@.map_values(|u: UTXOData| u@)),
            ),
            Err(e) => spec_handle(db@, path@, query@) == Err::<
                (bool, u64, Seq<(Seq<u8>, u32, u64, Seq<u8>)>),
                IndexError,
            >(e),
        },
{
    let bp = make_balance_path();
    let up = make_utxos_path();
    if bytes_eq(path, bp.as_slice()) {
        let pairs = query_pairs(query);
        proof {
            assert(pairs_view(pairs@) =~= query_pairs_of(query@));
        }
        let pa = make_param_address();
        let ab = match find_param(&pairs, pa.as_slice()) {
            None => {
                return Err(IndexError::MissingParam);
            },
            Some(v) => v,
        };
        match get_balance(db, ab.as_slice()) {
            Ok(b) => Ok(UTXORes::Balance(b)),
            Err(e) => Err(e),
        }
    } else if bytes_eq(path, up.as_slice()) {
        let pairs = query_pairs(query);
        proof {
            assert(pairs_view(pairs@) =~= query_pairs_of(query@));
        }
        let pa = make_param_address();
        let ab = match find_param(&pairs, pa.as_slice()) {
            None => {
                return Err(IndexError::MissingParam);
            },
            Some(v) => v,
        };
        let pm = make_param_amount();
        let amb = match find_param(&pairs, pm.as_slice()) {
            None => {
                return Err(IndexError::MissingParam);
            },
            Some(v) => v,
        };
        let amount = match parse_u64(amb.as_slice()) {
            None => {
                return Err(IndexError::MalformedValue);
            },
            Some(v) => v,
        };
        let pc = make_param_min_count();
        let mc: Option<u64> = match find_param(&pairs, pc.as_slice()) {
            None => None,
            Some(mb) => match parse_u64(mb.as_slice()) {
                None => {
                    return Err(IndexError::MalformedValue);
                },
                Some(v) => Some(v),
            },
        };
        match get_utxos(db, ab.as_slice(), amount, mc) {
            Ok(us) => Ok(UTXORes::UTXOs(us)),
            Err(e) => Err(e),
        }
    } else {
        Err(IndexError::UnknownEndpoint)
    }
}

// --- The binary wire encoding. ---

/// The wire bytes of a selection, appended after `acc`: for each UTXO its
/// txid, big-endian vout and value, and the raw transaction.
pub open spec fn utxos_bytes(us: Seq<(Seq<u8>, u32, u64, Seq<u8>)>, k: int, acc: Seq<u8>) -> Seq<
    u8,
>
    decreases us.len() - k,
{
    if k < 0 || k >= us.len() {
        acc
    } else {
        utxos_bytes(us, k + 1, acc + us[k].0 + u32_be(us[k].1) + u64_be(us[k].2) + us[k].3)
    }
}

impl UTXORes {
    /// The binary response: a balance as 8 big-endian bytes; a selection as
    /// the big-endian count followed by the records.
    #[verifier::loop_isolation(false)]
    pub fn to_bytes(self) -> (r: Vec<u8>)
        ensures
            match self {
                UTXORes::Balance(b) => r@ == u64_be(b),
                UTXORes::UTXOs(us) => r@ == utxos_bytes(
                    us@.map_values(|u: UTXOData| u@),
                    0,
                    u64_be(us@.len() as u64),
                ),
            },
    {
        match self {
            UTXORes::Balance(b) => u64_to_be(b),
            UTXORes::UTXOs(us) => {
                let ghost usv = us@.map_values(|u: UTXOData| u@);
                let mut out = u64_to_be(us.len() as u64);
                let mut k: usize = 0;
                while k < us.len()
                    invariant
                        k <= us@.len(),
                        usv == us@.map_values(|u: UTXOData| u@),
                        utxos_bytes(usv, 0, u64_be(us@.len() as u64)) == utxos_bytes(
                            usv,
                            k as int,
                            out@,
                        ),
                    decreases us@.len() - k,
                {
                    let ghost before = out@;
                    push_all(&mut out, us[k].txid.as_slice());
                    let vb = u32_to_be(us[k].vout);
                    push_all(&mut out, vb.as_slice());
                    let valb = u64_to_be(us[k].value);
                    push_all(&mut out, valb.as_slice());
                    push_all(&mut out, us[k].raw.as_slice());
                    proof {
                        assert(out@ =~= before + usv[k as int].0 + u32_be(usv[k as int].1)
                            + u64_be(usv[k as int].2) + usv[k as int].3);
                    }
                    k += 1;
                }
                out
            },
        }
    }
}

} // verus!
