//! Byte-level codec for the index: fixed little-endian integer layout and the
//! typed binary key schema (first byte is a type tag).
use vstd::prelude::*;

verus! {

/// Stored integers use a fixed little-endian byte layout.
pub open spec fn u32_le(x: u32) -> Seq<u8> {
    seq![
        (x & 0xff) as u8,
        ((x >> 8) & 0xff) as u8,
        ((x >> 16) & 0xff) as u8,
        ((x >> 24) & 0xff) as u8,
    ]
}

pub open spec fn le_u32(s: Seq<u8>) -> u32
    recommends
        s.len() == 4,
{
    (s[0] as u32) | ((s[1] as u32) << 8) | ((s[2] as u32) << 16) | ((s[3] as u32) << 24)
}

pub open spec fn u64_le(x: u64) -> Seq<u8> {
    seq![
        (x & 0xff) as u8,
        ((x >> 8) & 0xff) as u8,
        ((x >> 16) & 0xff) as u8,
        ((x >> 24) & 0xff) as u8,
        ((x >> 32) & 0xff) as u8,
        ((x >> 40) & 0xff) as u8,
        ((x >> 48) & 0xff) as u8,
        ((x >> 56) & 0xff) as u8,
    ]
}

pub open spec fn le_u64(s: Seq<u8>) -> u64
    recommends
        s.len() == 8,
{
    (s[0] as u64) | ((s[1] as u64) << 8) | ((s[2] as u64) << 16) | ((s[3] as u64) << 24)
        | ((s[4] as u64) << 32) | ((s[5] as u64) << 40) | ((s[6] as u64) << 48)
        | ((s[7] as u64) << 56)
}

pub fn u32_to_le(x: u32) -> (r: Vec<u8>)
    ensures
        r@ == u32_le(x),
{
    let mut v: Vec<u8> = Vec::new();
    v.push((x & 0xff) as u8);
    v.push(((x >> 8) & 0xff) as u8);
    v.push(((x >> 16) & 0xff) as u8);
    v.push(((x >> 24) & 0xff) as u8);
    proof {
        assert(v@ =~= u32_le(x));
    }
    v
}

pub fn u64_to_le(x: u64) -> (r: Vec<u8>)
    ensures
        r@ == u64_le(x),
{
    let mut v: Vec<u8> = Vec::new();
    v.push((x & 0xff) as u8);
    v.push(((x >> 8) & 0xff) as u8);
    v.push(((x >> 16) & 0xff) as u8);
    v.push(((x >> 24) & 0xff) as u8);
    v.push(((x >> 32) & 0xff) as u8);
    v.push(((x >> 40) & 0xff) as u8);
    v.push(((x >> 48) & 0xff) as u8);
    v.push(((x >> 56) & 0xff) as u8);
    proof {
        assert(v@ =~= u64_le(x));
    }
    v
}

pub fn le_to_u32(s: &[u8]) -> (r: u32)
    requires
        s@.len() == 4,
    ensures
        r == le_u32(s@),
{
    (s[0] as u32) | ((s[1] as u32) << 8) | ((s[2] as u32) << 16) | ((s[3] as u32) << 24)
}

pub fn le_to_u64(s: &[u8]) -> (r: u64)
    requires
        s@.len() == 8,
    ensures
        r == le_u64(s@),
{
    (s[0] as u64) | ((s[1] as u64) << 8) | ((s[2] as u64) << 16) | ((s[3] as u64) << 24)
        | ((s[4] as u64) << 32) | ((s[5] as u64) << 40) | ((s[6] as u64) << 48)
        | ((s[7] as u64) << 56)
}

/// Wire outputs use big-endian, distinct from the stored little-endian form.
pub open spec fn u32_be(x: u32) -> Seq<u8> {
    seq![
        ((x >> 24) & 0xff) as u8,
        ((x >> 16) & 0xff) as u8,
        ((x >> 8) & 0xff) as u8,
        (x & 0xff) as u8,
    ]
}

pub open spec fn u64_be(x: u64) -> Seq<u8> {
    seq![
        ((x >> 56) & 0xff) as u8,
        ((x >> 48) & 0xff) as u8,
        ((x >> 40) & 0xff) as u8,
        ((x >> 32) & 0xff) as u8,
        ((x >> 24) & 0xff) as u8,
        ((x >> 16) & 0xff) as u8,
        ((x >> 8) & 0xff) as u8,
        (x & 0xff) as u8,
    ]
}

pub fn u32_to_be(x: u32) -> (r: Vec<u8>)
    ensures
        r@ == u32_be(x),
{
    let mut v: Vec<u8> = Vec::new();
    v.push(((x >> 24) & 0xff) as u8);
    v.push(((x >> 16) & 0xff) as u8);
    v.push(((x >> 8) & 0xff) as u8);
    v.push((x & 0xff) as u8);
    proof {
        assert(v@ =~= u32_be(x));
    }
    v
}

pub fn u64_to_be(x: u64) -> (r: Vec<u8>)
    ensures
        r@ == u64_be(x),
{
    let mut v: Vec<u8> = Vec::new();
    v.push(((x >> 56) & 0xff) as u8);
    v.push(((x >> 48) & 0xff) as u8);
    v.push(((x >> 40) & 0xff) as u8);
    v.push(((x >> 32) & 0xff) as u8);
    v.push(((x >> 24) & 0xff) as u8);
    v.push(((x >> 16) & 0xff) as u8);
    v.push(((x >> 8) & 0xff) as u8);
    v.push((x & 0xff) as u8);
    proof {
        assert(v@ =~= u64_be(x));
    }
    v
}

/// Decoding a little-endian image gives the encoded integer back.
pub proof fn lemma_u32_le_inverse(x: u32)
    ensures
        le_u32(u32_le(x)) == x,
{
    assert(((x & 0xff) as u8 as u32) | ((((x >> 8) & 0xff) as u8 as u32) << 8)
        | ((((x >> 16) & 0xff) as u8 as u32) << 16) | ((((x >> 24) & 0xff) as u8 as u32) << 24)
        == x) by (bit_vector);
}

/// Distinct integers have distinct little-endian images.
pub proof fn lemma_u32_le_injective(x: u32, y: u32)
    ensures
        u32_le(x) == u32_le(y) ==> x == y,
{
    if u32_le(x) == u32_le(y) {
        lemma_u32_le_inverse(x);
        lemma_u32_le_inverse(y);
    }
}

// --- The typed key schema. ---

/// Tag 1, address alone: holds the number of slots of this address.
pub open spec fn addr_count_key(a: Seq<u8>) -> Seq<u8> {
    seq![1u8] + a
}

/// Tag 1, address and slot index: holds the 44-byte slot record.
pub open spec fn addr_slot_key(a: Seq<u8>, i: u32) -> Seq<u8> {
    seq![1u8] + a + u32_le(i)
}

/// Tag 2, outpoint: back-reference to the slot key holding that outpoint.
pub open spec fn backref_key(t: Seq<u8>, v: u32) -> Seq<u8> {
    seq![2u8] + t + u32_le(v)
}

/// Tag 4, txid: holds the raw transaction bytes.
pub open spec fn raw_key(t: Seq<u8>) -> Seq<u8> {
    seq![4u8] + t
}

/// Tag 5, txid: holds the number of still-unspent outputs of the tx.
pub open spec fn count_key(t: Seq<u8>) -> Seq<u8> {
    seq![5u8] + t
}

/// The 44-byte slot record: txid, vout and value.
pub open spec fn slot_value(t: Seq<u8>, v: u32, val: u64) -> Seq<u8> {
    t + u32_le(v) + u64_le(val)
}

/// Tags and lengths of the key forms, for disjointness reasoning.
pub proof fn lemma_key_shape(a: Seq<u8>, t: Seq<u8>, i: u32, v: u32)
    ensures
        addr_count_key(a)[0] == 1u8,
        addr_slot_key(a, i)[0] == 1u8,
        backref_key(t, v)[0] == 2u8,
        raw_key(t)[0] == 4u8,
        count_key(t)[0] == 5u8,
        addr_count_key(a).len() == 1 + a.len(),
        addr_slot_key(a, i).len() == 5 + a.len(),
        backref_key(t, v).len() == 5 + t.len(),
        raw_key(t).len() == 1 + t.len(),
        count_key(t).len() == 1 + t.len(),
        slot_value(t, v, 0u64).len() == 12 + t.len(),
{
}

pub proof fn lemma_addr_slot_key_injective(a1: Seq<u8>, i1: u32, a2: Seq<u8>, i2: u32)
    requires
        a1.len() == a2.len(),
        addr_slot_key(a1, i1) == addr_slot_key(a2, i2),
    ensures
        a1 == a2,
        i1 == i2,
{
    let n = a1.len() as int;
    assert(a1 =~= addr_slot_key(a1, i1).subrange(1, 1 + n));
    assert(a2 =~= addr_slot_key(a2, i2).subrange(1, 1 + n));
    assert(u32_le(i1) =~= addr_slot_key(a1, i1).subrange(1 + n, 5 + n));
    assert(u32_le(i2) =~= addr_slot_key(a2, i2).subrange(1 + n, 5 + n));
    lemma_u32_le_injective(i1, i2);
}

// --- Executable helpers over byte buffers. ---

pub fn push_all(dst: &mut Vec<u8>, src: &[u8])
    ensures
        final(dst)@ == old(dst)@ + src@,
{
    let mut i: usize = 0;
    while i < src.len()
        invariant
            i <= src@.len(),
            dst@ == old(dst)@ + src@.take(i as int),
        decreases src@.len() - i,
    {
        dst.push(src[i]);
        proof {
            assert(dst@ =~= old(dst)@ + src@.take(i as int + 1));
        }
        i += 1;
    }
    proof {
        assert(dst@ =~= old(dst)@ + src@);
    }
}

pub fn clone_bytes(src: &[u8]) -> (r: Vec<u8>)
    ensures
        r@ == src@,
{
    let mut v: Vec<u8> = Vec::new();
    push_all(&mut v, src);
    proof {
        assert(v@ =~= src@);
    }
    v
}

pub fn copy_range(src: &[u8], start: usize, end: usize) -> (r: Vec<u8>)
    requires
        start <= end <= src@.len(),
    ensures
        r@ == src@.subrange(start as int, end as int),
{
    let mut v: Vec<u8> = Vec::new();
    let mut i: usize = start;
    while i < end
        invariant
            start <= i <= end <= src@.len(),
            v@ == src@.subrange(start as int, i as int),
        decreases end - i,
    {
        v.push(src[i]);
        proof {
            assert(v@ =~= src@.subrange(start as int, i as int + 1));
        }
        i += 1;
    }
    v
}

pub fn bytes_eq(a: &[u8], b: &[u8]) -> (r: bool)
    ensures
        r == (a@ == b@),
{
    if a.len() != b.len() {
        return false;
    }
    let mut i: usize = 0;
    while i < a.len()
        invariant
            i <= a@.len(),
            a@.len() == b@.len(),
            forall|j: int| 0 <= j < i ==> a@[j] == b@[j],
        decreases a@.len() - i,
    {
        if a[i] != b[i] {
            return false;
        }
        i += 1;
    }
    proof {
        assert(a@ =~= b@);
    }
    true
}

pub fn make_addr_count_key(a: &[u8]) -> (r: Vec<u8>)
    ensures
        r@ == addr_count_key(a@),
{
    let mut v: Vec<u8> = Vec::new();
    v.push(1u8);
    push_all(&mut v, a);
    proof {
        assert(v@ =~= addr_count_key(a@));
    }
    v
}

pub fn make_addr_slot_key(a: &[u8], i: u32) -> (r: Vec<u8>)
    ensures
        r@ == addr_slot_key(a@, i),
{
    let mut v: Vec<u8> = Vec::new();
    v.push(1u8);
    push_all(&mut v, a);
    let le = u32_to_le(i);
    push_all(&mut v, le.as_slice());
    proof {
        assert(v@ =~= addr_slot_key(a@, i));
    }
    v
}

pub fn make_backref_key(t: &[u8], v: u32) -> (r: Vec<u8>)
    ensures
        r@ == backref_key(t@, v),
{
    let mut k: Vec<u8> = Vec::new();
    k.push(2u8);
    push_all(&mut k, t);
    let le = u32_to_le(v);
    push_all(&mut k, le.as_slice());
    proof {
        assert(k@ =~= backref_key(t@, v));
    }
    k
}

pub fn make_raw_key(t: &[u8]) -> (r: Vec<u8>)
    ensures
        r@ == raw_key(t@),
{
    let mut k: Vec<u8> = Vec::new();
    k.push(4u8);
    push_all(&mut k, t);
    proof {
        assert(k@ =~= raw_key(t@));
    }
    k
}

pub fn make_count_key(t: &[u8]) -> (r: Vec<u8>)
    ensures
        r@ == count_key(t@),
{
    let mut k: Vec<u8> = Vec::new();
    k.push(5u8);
    push_all(&mut k, t);
    proof {
        assert(k@ =~= count_key(t@));
    }
    k
}

pub fn make_slot_value(t: &[u8], v: u32, val: u64) -> (r: Vec<u8>)
    ensures
        r@ == slot_value(t@, v, val),
{
    let mut s: Vec<u8> = Vec::new();
    push_all(&mut s, t);
    let le4 = u32_to_le(v);
    push_all(&mut s, le4.as_slice());
    let le8 = u64_to_le(val);
    push_all(&mut s, le8.as_slice());
    proof {
        assert(s@ =~= slot_value(t@, v, val));
    }
    s
}

} // verus!
