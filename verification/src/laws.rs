//! Laws of the address index: what a removal does to the set of slots of an
//! address, stated over the store model and proved from the mutators' specs.
use vstd::prelude::*;
use vstd::seq_lib::group_to_multiset_ensures;
use vstd::seq_lib::lemma_multiset_commutative;
use crate::codec::{
    addr_count_key, addr_slot_key, backref_key, count_key, raw_key, slot_value, u32_le, le_u32,
    lemma_key_shape, lemma_u32_le_inverse, lemma_u32_le_injective, lemma_addr_slot_key_injective,
};
use crate::utxo::{addr_len, rem_err, rem_m1, rem_map, spec_add};

verus! {

/// The slot records of an address, in index order.
pub open spec fn slots_seq(m: Map<Seq<u8>, Seq<u8>>, a: Seq<u8>, l: u32) -> Seq<Seq<u8>> {
    Seq::new(l as nat, |j: int| m[addr_slot_key(a, j as u32)])
}

/// Replacing element `i` by the last element and dropping the last removes
/// exactly one occurrence of the replaced element from the multiset.
pub proof fn lemma_swap_delete_multiset<A>(s: Seq<A>, i: int)
    requires
        0 <= i < s.len(),
    ensures
        s.update(i, s.last()).drop_last().to_multiset() == s.to_multiset().remove(s[i]),
{
    broadcast use group_to_multiset_ensures;

    let t = s.update(i, s.last()).drop_last();
    if i == s.len() - 1 {
        assert(s =~= t.push(s[i]));
        assert(s.to_multiset() == t.to_multiset().insert(s[i]));
        assert(s.to_multiset().remove(s[i]) =~= t.to_multiset());
    } else {
        let a = s.take(i);
        let b = s.subrange(i + 1, s.len() - 1);
        let x = s.last();
        assert(t =~= a + (seq![x] + b));
        assert(s.remove(i) =~= a + (b + seq![x]));
        lemma_multiset_commutative(a, seq![x] + b);
        lemma_multiset_commutative(seq![x], b);
        lemma_multiset_commutative(a, b + seq![x]);
        lemma_multiset_commutative(b, seq![x]);
        assert(t.to_multiset() =~= s.remove(i).to_multiset());
        assert(s.remove(i).to_multiset() =~= s.to_multiset().remove(s[i]));
    }
}

/// The well-formedness a removal relies on at one address: the stored length
/// is `l`, every slot below `l` is a 44-byte record, and the removed
/// outpoint's back-reference names slot `i` of the address.
pub open spec fn removal_setup(
    m: Map<Seq<u8>, Seq<u8>>,
    t: Seq<u8>,
    v: u32,
    a: Seq<u8>,
    i: u32,
    l: u32,
) -> bool {
    &&& t.len() == 32
    &&& a.len() == 21
    &&& l >= 1
    &&& i < l
    &&& rem_err(m, t, v) is None
    &&& m.contains_key(addr_count_key(a))
    &&& m[addr_count_key(a)] == u32_le(l)
    &&& m.contains_key(backref_key(t, v))
    &&& m[backref_key(t, v)] == addr_slot_key(a, i)
    &&& forall|j: u32| j < l ==> m.contains_key(#[trigger] addr_slot_key(a, j))
}

/// Facts shared by the removal laws: how `rem_map` rewrites the slot area of
/// the address named by the back-reference.
proof fn lemma_removal_shape(
    m: Map<Seq<u8>, Seq<u8>>,
    t: Seq<u8>,
    v: u32,
    a: Seq<u8>,
    i: u32,
    l: u32,
)
    requires
        removal_setup(m, t, v, a, i, l),
    ensures
        addr_len(rem_map(m, t, v), a) == l - 1,
        forall|j: u32|
            j < l - 1 && j != i ==> rem_map(m, t, v).contains_key(#[trigger] addr_slot_key(a, j))
                && rem_map(m, t, v)[addr_slot_key(a, j)] == m[addr_slot_key(a, j)],
        i < l - 1 ==> rem_map(m, t, v).contains_key(addr_slot_key(a, i)) && rem_map(m, t, v)[
            addr_slot_key(a, i)
        ] == m[addr_slot_key(a, (l - 1) as u32)],
        !rem_map(m, t, v).contains_key(addr_slot_key(a, (l - 1) as u32)),
{
    lemma_key_shape(a, t, i, v);
    let m1 = rem_m1(m, t);
    let bk = backref_key(t, v);
    let ak = addr_slot_key(a, i);
    let lk = addr_count_key(a);
    assert(ak.subrange(0, 22) =~= lk);
    assert(m1.contains_key(bk) && m1[bk] == ak);
    assert(m1[lk] == u32_le(l));
    lemma_u32_le_inverse(l);
    let last = (l - 1) as u32;
    assert(ak.subrange(22, 26) =~= u32_le(i));
    lemma_u32_le_injective(last, i);
    assert(lk + u32_le(last) =~= addr_slot_key(a, last));
    let rk = addr_slot_key(a, last);
    let res = rem_map(m, t, v);
    assert forall|j: u32| j < l - 1 && j != i implies res.contains_key(
        #[trigger] addr_slot_key(a, j),
    ) && res[addr_slot_key(a, j)] == m[addr_slot_key(a, j)] by {
        lemma_key_shape(a, t, j, v);
        if addr_slot_key(a, j) == addr_slot_key(a, i) {
            lemma_addr_slot_key_injective(a, j, a, i);
        }
        if addr_slot_key(a, j) == addr_slot_key(a, last) {
            lemma_addr_slot_key_injective(a, j, a, last);
        }
        if u32_le(last) != ak.subrange(22, 26) && m1.contains_key(rk) {
            let rval = m1[rk];
            lemma_key_shape(a, rval.subrange(0, 32), j, le_u32(rval.subrange(32, 36)));
        }
    }
    if i < l - 1 {
        assert(u32_le(last) != ak.subrange(22, 26)) by {
            lemma_u32_le_injective(last, i);
        }
        assert(m1.contains_key(rk));
        let rval = m1[rk];
        lemma_key_shape(a, rval.subrange(0, 32), i, le_u32(rval.subrange(32, 36)));
        if addr_slot_key(a, i) == addr_slot_key(a, last) {
            lemma_addr_slot_key_injective(a, i, a, last);
        }
        assert(res[ak] == m[rk]);
    }
    if u32_le(last) != ak.subrange(22, 26) && m1.contains_key(rk) {
        let rval = m1[rk];
        lemma_key_shape(a, rval.subrange(0, 32), last, le_u32(rval.subrange(32, 36)));
    }
    assert(!res.contains_key(rk));
    assert(res[addr_count_key(a)] == u32_le(last));
    lemma_u32_le_inverse(last);
}

/// Swap-delete preserves the set: after removing the outpoint held in slot
/// `i` of an address, the multiset of that address's slot records equals the
/// multiset before, minus that one record.
pub proof fn lemma_swap_delete_preserves_set(
    m: Map<Seq<u8>, Seq<u8>>,
    t: Seq<u8>,
    v: u32,
    a: Seq<u8>,
    i: u32,
    l: u32,
)
    requires
        removal_setup(m, t, v, a, i, l),
    ensures
        slots_seq(rem_map(m, t, v), a, (l - 1) as u32).to_multiset() == slots_seq(
            m,
            a,
            l,
        ).to_multiset().remove(m[addr_slot_key(a, i)]),
{
    lemma_removal_shape(m, t, v, a, i, l);
    let s = slots_seq(m, a, l);
    assert(slots_seq(rem_map(m, t, v), a, (l - 1) as u32) =~= s.update(i as int, s.last())
        .drop_last());
    lemma_swap_delete_multiset(s, i as int);
}

/// Removing the only UTXO of an address leaves length zero and no slot.
pub proof fn lemma_remove_only_utxo(m: Map<Seq<u8>, Seq<u8>>, t: Seq<u8>, v: u32, a: Seq<u8>)
    requires
        removal_setup(m, t, v, a, 0, 1),
    ensures
        addr_len(rem_map(m, t, v), a) == 0,
        !rem_map(m, t, v).contains_key(addr_slot_key(a, 0)),
{
    lemma_removal_shape(m, t, v, a, 0, 1);
}

/// Removing the outpoint held in the last slot performs a no-op swap: every
/// other slot of the address keeps its record, and the length drops by one.
pub proof fn lemma_remove_last_slot(
    m: Map<Seq<u8>, Seq<u8>>,
    t: Seq<u8>,
    v: u32,
    a: Seq<u8>,
    l: u32,
)
    requires
        removal_setup(m, t, v, a, (l - 1) as u32, l),
    ensures
        addr_len(rem_map(m, t, v), a) == l - 1,
        forall|j: u32|
            j < l - 1 ==> rem_map(m, t, v).contains_key(#[trigger] addr_slot_key(a, j)) && rem_map(
                m,
                t,
                v,
            )[addr_slot_key(a, j)] == m[addr_slot_key(a, j)],
        !rem_map(m, t, v).contains_key(addr_slot_key(a, (l - 1) as u32)),
{
    lemma_removal_shape(m, t, v, a, (l - 1) as u32, l);
}

} // verus!

verus! {

/// Adding an addressed UTXO appends exactly one slot: the stored length grows
/// by one, the new slot at the old length holds the new record, the new
/// outpoint's back-reference names that slot and resolves to a record whose
/// first 36 bytes are the outpoint, and every existing slot of the address is
/// untouched.
pub proof fn lemma_add_appends_slot(
    m: Map<Seq<u8>, Seq<u8>>,
    a: Seq<u8>,
    t: Seq<u8>,
    v: u32,
    value: u64,
    raw: Option<(Seq<u8>, u32)>,
)
    requires
        a.len() == 21,
        t.len() == 32,
        addr_len(m, a) < u32::MAX,
    ensures
        ({
            let l = addr_len(m, a);
            let res = spec_add(m, Some(a), t, v, value, raw);
            &&& addr_len(res, a) == l + 1
            &&& res.contains_key(addr_slot_key(a, l))
            &&& res[addr_slot_key(a, l)] == slot_value(t, v, value)
            &&& res.contains_key(backref_key(t, v))
            &&& res[backref_key(t, v)] == addr_slot_key(a, l)
            &&& res[res[backref_key(t, v)]].subrange(0, 36) == t + u32_le(v)
            &&& forall|j: u32|
                j < l && m.contains_key(#[trigger] addr_slot_key(a, j)) ==> res.contains_key(
                    addr_slot_key(a, j),
                ) && res[addr_slot_key(a, j)] == m[addr_slot_key(a, j)]
        }),
{
    lemma_key_shape(a, t, 0u32, v);
    let l = addr_len(m, a);
    let m1 = match raw {
        Some((r, c)) => m.insert(count_key(t), u32_le(c)).insert(raw_key(t), r),
        None => m,
    };
    assert(addr_len(m1, a) == l);
    let res = spec_add(m, Some(a), t, v, value, raw);
    lemma_u32_le_inverse((l + 1) as u32);
    assert(addr_len(res, a) == l + 1);
    assert(slot_value(t, v, value).subrange(0, 36) =~= t + u32_le(v));
    assert forall|j: u32|
        j < l && m.contains_key(#[trigger] addr_slot_key(a, j)) implies res.contains_key(
        addr_slot_key(a, j),
    ) && res[addr_slot_key(a, j)] == m[addr_slot_key(a, j)] by {
        lemma_key_shape(a, t, j, v);
        if addr_slot_key(a, j) == addr_slot_key(a, l) {
            lemma_addr_slot_key_injective(a, j, a, l);
        }
    }
}

} // verus!
