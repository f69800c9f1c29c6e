//! The embedded key-value store that holds the whole index: a log-structured
//! byte-keyed map with point get, put and delete. A read returns the value of
//! the most recent write, so the store's abstract state is a map from byte
//! keys to byte values.
use vstd::prelude::*;
use crate::codec::{bytes_eq, clone_bytes};

verus! {

pub struct Store {
    log: Vec<(Vec<u8>, Option<Vec<u8>>)>,
}

/// The map described by a write log: later writes win, a `None` write deletes.
pub open spec fn map_of(s: Seq<(Vec<u8>, Option<Vec<u8>>)>) -> Map<Seq<u8>, Seq<u8>>
    decreases s.len(),
{
    if s.len() == 0 {
        Map::empty()
    } else {
        let rest = map_of(s.drop_last());
        match s.last().1 {
            Some(v) => rest.insert(s.last().0@, v@),
            None => rest.remove(s.last().0@),
        }
    }
}

impl View for Store {
    type V = Map<Seq<u8>, Seq<u8>>;

    closed spec fn view(&self) -> Map<Seq<u8>, Seq<u8>> {
        map_of(self.log@)
    }
}

/// A key untouched by the log's tail keeps the value it has in the prefix.
proof fn lemma_map_of_agree(s: Seq<(Vec<u8>, Option<Vec<u8>>)>, i: int, k: Seq<u8>)
    requires
        0 <= i <= s.len(),
        forall|j: int| i <= j < s.len() ==> s[j].0@ != k,
    ensures
        map_of(s).contains_key(k) == map_of(s.take(i)).contains_key(k),
        map_of(s).contains_key(k) ==> map_of(s)[k] == map_of(s.take(i))[k],
    decreases s.len(),
{
    if i < s.len() {
        let s2 = s.drop_last();
        assert(s.take(i) =~= s2.take(i));
        assert(forall|j: int| i <= j < s2.len() ==> s2[j].0@ != k);
        lemma_map_of_agree(s2, i, k);
        assert(s.last().0@ != k);
    } else {
        assert(s.take(i) =~= s);
    }
}

impl Store {
    pub fn new() -> (r: Store)
        ensures
            r@ == Map::<Seq<u8>, Seq<u8>>::empty(),
    {
        Store { log: Vec::new() }
    }

    pub fn put(&mut self, k: Vec<u8>, v: Vec<u8>)
        ensures
            final(self)@ == old(self)@.insert(k@, v@),
    {
        self.log.push((k, Some(v)));
        proof {
            assert(self.log@.drop_last() =~= old(self).log@);
        }
    }

    pub fn delete(&mut self, k: Vec<u8>)
        ensures
            final(self)@ == old(self)@.remove(k@),
    {
        self.log.push((k, None));
        proof {
            assert(self.log@.drop_last() =~= old(self).log@);
        }
    }

    pub fn get(&self, k: &[u8]) -> (r: Option<Vec<u8>>)
        ensures
            match r {
                Some(v) => self@.contains_key(k@) && v@ == self@[k@],
                None => !self@.contains_key(k@),
            },
    {
        let n: usize = self.log.len();
        let mut i: usize = n;
        while i > 0
            invariant
                i <= n,
                n == self.log@.len(),
                forall|j: int| i <= j < n ==> self.log@[j].0@ != k@,
            decreases i,
        {
            i -= 1;
            if bytes_eq(self.log[i].0.as_slice(), k) {
                proof {
                    lemma_map_of_agree(self.log@, i as int + 1, k@);
                    assert(self.log@.take(i as int + 1).last() == self.log@[i as int]);
                    assert(self.log@.take(i as int + 1).drop_last() =~= self.log@.take(i as int));
                }
                match &self.log[i].1 {
                    Some(v) => {
                        return Some(clone_bytes(v.as_slice()));
                    },
                    None => {
                        return None;
                    },
                }
            }
        }
        proof {
            lemma_map_of_agree(self.log@, 0, k@);
            assert(self.log@.take(0) =~= Seq::<(Vec<u8>, Option<Vec<u8>>)>::empty());
        }
        None
    }
}

} // verus!
