//! A map from strings to strings that keeps its entries in insertion order.
use vstd::prelude::*;

verus! {

/// The keys of `p` are pairwise distinct.
pub open spec fn keys_distinct(p: Seq<(Seq<char>, Seq<char>)>) -> bool {
    forall|i: int, j: int| 0 <= i < j < p.len() ==> (#[trigger] p[i]).0 != (#[trigger] p[j]).0
}

/// The map whose entries are `p`; a later entry wins over an earlier one with the same key.
pub open spec fn map_of(p: Seq<(Seq<char>, Seq<char>)>) -> Map<Seq<char>, Seq<char>>
    decreases p.len(),
{
    if p.len() == 0 {
        Map::empty()
    } else {
        map_of(p.drop_last()).insert(p.last().0, p.last().1)
    }
}

/// `k` is the key of some entry of `p`.
pub open spec fn has_key(p: Seq<(Seq<char>, Seq<char>)>, k: Seq<char>) -> bool {
    exists|i: int| 0 <= i < p.len() && (#[trigger] p[i]).0 == k
}

/// A string-to-string map; each key occurs once, entries stay in insertion order.
pub struct TextMap {
    entries: Vec<(String, String)>,
}

proof fn lemma_map_of_dom(p: Seq<(Seq<char>, Seq<char>)>, k: Seq<char>)
    ensures
        map_of(p).contains_key(k) <==> has_key(p, k),
    decreases p.len(),
{
    if p.len() > 0 {
        lemma_map_of_dom(p.drop_last(), k);
        if has_key(p.drop_last(), k) {
            let i = choose|i: int| 0 <= i < p.drop_last().len() && (#[trigger] p.drop_last()[i]).0 == k;
            assert(p[i].0 == k);
        }
        if has_key(p, k) && p.last().0 != k {
            let i = choose|i: int| 0 <= i < p.len() && (#[trigger] p[i]).0 == k;
            assert(p.drop_last()[i].0 == k);
        }
    }
}

proof fn lemma_map_of_at(p: Seq<(Seq<char>, Seq<char>)>, i: int)
    requires
        keys_distinct(p),
        0 <= i < p.len(),
    ensures
        map_of(p).contains_key(p[i].0),
        map_of(p)[p[i].0] == p[i].1,
    decreases p.len(),
{
    if i < p.len() - 1 {
        let q = p.drop_last();
        assert(q[i] == p[i]);
        assert(keys_distinct(q)) by {
            assert forall|a: int, b: int| 0 <= a < b < q.len() implies (#[trigger] q[a]).0
                != (#[trigger] q[b]).0 by {
                assert(q[a] == p[a] && q[b] == p[b]);
            }
        }
        lemma_map_of_at(q, i);
        assert(p[i].0 != p[p.len() - 1].0);
    }
}

proof fn lemma_map_of_update(p: Seq<(Seq<char>, Seq<char>)>, i: int, v: Seq<char>)
    requires
        keys_distinct(p),
        0 <= i < p.len(),
    ensures
        map_of(p.update(i, (p[i].0, v))) == map_of(p).insert(p[i].0, v),
    decreases p.len(),
{
    let k = p[i].0;
    let u = p.update(i, (k, v));
    if i == p.len() - 1 {
        assert(u.drop_last() =~= p.drop_last());
        assert(map_of(u) =~= map_of(p).insert(k, v));
    } else {
        let q = p.drop_last();
        assert(keys_distinct(q)) by {
            assert forall|a: int, b: int| 0 <= a < b < q.len() implies (#[trigger] q[a]).0
                != (#[trigger] q[b]).0 by {
                assert(q[a] == p[a] && q[b] == p[b]);
            }
        }
        assert(q[i] == p[i]);
        lemma_map_of_update(q, i, v);
        assert(u.drop_last() =~= q.update(i, (k, v)));
        assert(p.last().0 != k);
        assert(map_of(u) =~= map_of(p).insert(k, v));
    }
}

proof fn lemma_map_of_len(p: Seq<(Seq<char>, Seq<char>)>)
    requires
        keys_distinct(p),
    ensures
        map_of(p).dom().finite(),
        map_of(p).dom().len() == p.len(),
    decreases p.len(),
{
    if p.len() > 0 {
        let q = p.drop_last();
        assert(keys_distinct(q)) by {
            assert forall|a: int, b: int| 0 <= a < b < q.len() implies (#[trigger] q[a]).0
                != (#[trigger] q[b]).0 by {
                assert(q[a] == p[a] && q[b] == p[b]);
            }
        }
        lemma_map_of_len(q);
        lemma_map_of_dom(q, p.last().0);
        if has_key(q, p.last().0) {
            let i = choose|i: int| 0 <= i < q.len() && (#[trigger] q[i]).0 == p.last().0;
            assert(q[i] == p[i]);
        }
        assert(map_of(p).dom() =~= map_of(q).dom().insert(p.last().0));
    }
}

impl TextMap {
    /// The entries, as pairs of character sequences, in insertion order.
    pub closed spec fn pairs(&self) -> Seq<(Seq<char>, Seq<char>)> {
        self.entries@.map_values(|e: (String, String)| (e.0@, e.1@))
    }

    #[verifier::type_invariant]
    closed spec fn inv(&self) -> bool {
        keys_distinct(self.pairs())
    }

    /// An empty map.
    pub fn new() -> (r: Self)
        ensures
            r.pairs() == Seq::<(Seq<char>, Seq<char>)>::empty(),
            r@ == Map::<Seq<char>, Seq<char>>::empty(),
    {
        let r = TextMap { entries: Vec::new() };
        assert(r.pairs() =~= Seq::<(Seq<char>, Seq<char>)>::empty());
        r
    }

    /// The position of the entry with key `key`, if any.
    fn position(&self, key: &str) -> (r: Option<usize>)
        ensures
            match r {
                Some(i) => i < self.pairs().len() && self.pairs()[i as int].0 == key@,
                None => !has_key(self.pairs(), key@),
            },
    {
        let n = self.entries.len();
        let mut i: usize = 0;
        while i < n
            invariant
                n == self.entries@.len(),
                i <= n,
                forall|j: int| 0 <= j < i ==> (#[trigger] self.pairs()[j]).0 != key@,
            decreases n - i,
        {
            if crate::text::str_eq(self.entries[i].0.as_str(), key) {
                return Some(i);
            }
            i += 1;
        }
        None
    }

    /// Sets `key` to `value`: an entry with that key is overwritten in place,
    /// otherwise the entry is added at the end.
    pub fn insert(&mut self, key: String, value: String)
        ensures
            final(self)@ == old(self)@.insert(key@, value@),
            has_key(old(self).pairs(), key@) ==> final(self).pairs().len() == old(
                self,
            ).pairs().len(),
            !has_key(old(self).pairs(), key@) ==> final(self).pairs() == old(self).pairs().push(
                (key@, value@),
            ),
    {
        proof {
            use_type_invariant(&*self);
        }
        let ghost p = self.pairs();
        match self.position(key.as_str()) {
            Some(i) => {
                let ghost k = key@;
                proof {
                    lemma_map_of_update(p, i as int, value@);
                }
                let mut entries: Vec<(String, String)> = Vec::new();
                std::mem::swap(&mut entries, &mut self.entries);
                entries.set(i, (key, value));
                let ghost q = entries@.map_values(|e: (String, String)| (e.0@, e.1@));
                assert(q =~= p.update(i as int, (k, q[i as int].1)));
                proof {
                    assert(keys_distinct(q)) by {
                        assert forall|a: int, b: int| 0 <= a < b < q.len() implies (#[trigger] q[
                            a]).0 != (#[trigger] q[b]).0 by {
                            assert(q[a].0 == p[a].0 && q[b].0 == p[b].0);
                        }
                    }
                }
                self.entries = entries;
            },
            None => {
                let ghost k = key@;
                let ghost v = value@;
                let mut entries: Vec<(String, String)> = Vec::new();
                std::mem::swap(&mut entries, &mut self.entries);
                entries.push((key, value));
                let ghost q = entries@.map_values(|e: (String, String)| (e.0@, e.1@));
                assert(q =~= p.push((k, v)));
                assert(q.drop_last() =~= p);
                proof {
                    assert(keys_distinct(q)) by {
                        assert forall|a: int, b: int| 0 <= a < b < q.len() implies (#[trigger] q[
                            a]).0 != (#[trigger] q[b]).0 by {
                            if b == q.len() - 1 {
                                assert(q[a] == p[a]);
                            } else {
                                assert(q[a] == p[a] && q[b] == p[b]);
                            }
                        }
                    }
                }
                self.entries = entries;
            },
        }
    }

    /// The value stored under `key`, if any.
    pub fn get(&self, key: &str) -> (r: Option<&String>)
        ensures
            match r {
                Some(v) => self@.contains_key(key@) && self@[key@] == v@,
                None => !self@.contains_key(key@),
            },
    {
        proof {
            use_type_invariant(self);
            lemma_map_of_dom(self.pairs(), key@);
        }
        match self.position(key) {
            Some(i) => {
                proof {
                    lemma_map_of_at(self.pairs(), i as int);
                }
                Some(&self.entries[i].1)
            },
            None => None,
        }
    }

    /// Number of entries, which is the number of keys: each key has one entry.
    pub fn len(&self) -> (r: usize)
        ensures
            r == self.pairs().len(),
            r == self@.dom().len(),
    {
        proof {
            use_type_invariant(self);
            lemma_map_of_len(self.pairs());
        }
        self.entries.len()
    }

    /// The key and value of entry `i`, in insertion order.
    pub fn entry(&self, i: usize) -> (r: (&String, &String))
        requires
            i < self.pairs().len(),
        ensures
            (r.0@, r.1@) == self.pairs()[i as int],
    {
        (&self.entries[i].0, &self.entries[i].1)
    }
}

impl View for TextMap {
    type V = Map<Seq<char>, Seq<char>>;

    open spec fn view(&self) -> Map<Seq<char>, Seq<char>> {
        map_of(self.pairs())
    }
}


/// What a read gives back after a write: after setting `k` to `v` the map holds `v`
/// under `k`, and every other key keeps what it had.
pub proof fn lemma_get_after_insert(
    before: Map<Seq<char>, Seq<char>>,
    k: Seq<char>,
    v: Seq<char>,
    other: Seq<char>,
)
    ensures
        before.insert(k, v).contains_key(k),
        before.insert(k, v)[k] == v,
        other != k ==> (before.insert(k, v).contains_key(other) == before.contains_key(other)),
        other != k && before.contains_key(other) ==> before.insert(k, v)[other] == before[other],
{
}

} // verus!
