//! Finite maps kept as lists of entries, and the one keyed by socket
//! addresses.
use vstd::prelude::*;
use crate::net::SockAddr;

verus! {

/// The map that a list of entries denotes; a later entry for a key
/// overrides an earlier one.
pub open spec fn entries_map<K, V>(s: Seq<(K, V)>) -> Map<K, V>
    decreases s.len(),
{
    if s.len() == 0 {
        Map::empty()
    } else {
        entries_map(s.drop_last()).insert(s.last().0, s.last().1)
    }
}

/// No key occurs twice in the list.
pub open spec fn keys_distinct<K, V>(s: Seq<(K, V)>) -> bool {
    forall|i: int, j: int| 0 <= i < j < s.len() ==> s[i].0 != s[j].0
}

/// The keys of the list are the domain of its map.
pub(crate) proof fn lemma_entries_dom<K, V>(s: Seq<(K, V)>, a: K)
    ensures
        entries_map(s).dom().contains(a) <==> exists|i: int| 0 <= i < s.len() && s[i].0 == a,
    decreases s.len(),
{
    if s.len() > 0 {
        lemma_entries_dom(s.drop_last(), a);
        if entries_map(s.drop_last()).dom().contains(a) {
            let i = choose|i: int| 0 <= i < s.drop_last().len() && s.drop_last()[i].0 == a;
            assert(s[i].0 == a);
        }
        if exists|i: int| 0 <= i < s.len() && s[i].0 == a {
            let i = choose|i: int| 0 <= i < s.len() && s[i].0 == a;
            if i < s.len() - 1 {
                assert(s.drop_last()[i].0 == a);
            }
        }
    }
}

/// With distinct keys, the map gives each entry's value for its key.
pub(crate) proof fn lemma_entries_get<K, V>(s: Seq<(K, V)>, i: int)
    requires
        keys_distinct(s),
        0 <= i < s.len(),
    ensures
        entries_map(s).dom().contains(s[i].0),
        entries_map(s)[s[i].0] == s[i].1,
    decreases s.len(),
{
    if i < s.len() - 1 {
        assert(keys_distinct(s.drop_last()));
        assert(s.drop_last()[i] == s[i]);
        lemma_entries_get(s.drop_last(), i);
    }
}

/// Replacing the value of entry `i` changes the map only at its key.
pub(crate) proof fn lemma_entries_update<K, V>(s: Seq<(K, V)>, i: int, v: V)
    requires
        keys_distinct(s),
        0 <= i < s.len(),
    ensures
        entries_map(s.update(i, (s[i].0, v))) == entries_map(s).insert(s[i].0, v),
    decreases s.len(),
{
    let t = s.update(i, (s[i].0, v));
    if i == s.len() - 1 {
        assert(t.drop_last() =~= s.drop_last());
        assert(entries_map(t) =~= entries_map(s).insert(s[i].0, v));
    } else {
        assert(keys_distinct(s.drop_last()));
        assert(t.drop_last() =~= s.drop_last().update(i, (s[i].0, v)));
        lemma_entries_update(s.drop_last(), i, v);
        assert(s.last().0 != s[i].0);
        assert(entries_map(t) =~= entries_map(s).insert(s[i].0, v));
    }
}

/// A map from socket addresses to copyable values, kept as a list of entries
/// in which no address occurs twice.
pub struct AddrMap<V> {
    entries: Vec<(SockAddr, V)>,
}

impl<V: Copy> View for AddrMap<V> {
    type V = Map<SockAddr, V>;

    closed spec fn view(&self) -> Map<SockAddr, V> {
        entries_map(self.entries@)
    }
}

impl<V> AddrMap<V> {
    #[verifier::type_invariant]
    closed spec fn inv(self) -> bool {
        keys_distinct(self.entries@)
    }
}

impl<V: Copy> AddrMap<V> {
    /// An empty map.
    pub fn new() -> (m: Self)
        ensures
            m@ == Map::<SockAddr, V>::empty(),
    {
        AddrMap { entries: Vec::new() }
    }

    /// The position of the entry for `a`, if there is one.
    fn find(&self, a: &SockAddr) -> (r: Option<usize>)
        ensures
            match r {
                Some(i) => i < self.entries@.len() && self.entries@[i as int].0 == *a,
                None => forall|i: int| 0 <= i < self.entries@.len() ==> self.entries@[i].0 != *a,
            },
    {
        let mut i: usize = 0;
        while i < self.entries.len()
            invariant
                i <= self.entries@.len(),
                forall|j: int| 0 <= j < i ==> self.entries@[j].0 != *a,
            decreases self.entries@.len() - i,
        {
            if self.entries[i].0 == *a {
                return Some(i);
            }
            i = i + 1;
        }
        None
    }

    /// The value stored for `a`, if any.
    pub fn get(&self, a: &SockAddr) -> (r: Option<V>)
        ensures
            r == (if self@.dom().contains(*a) { Some(self@[*a]) } else { None }),
    {
        proof {
            use_type_invariant(self);
            lemma_entries_dom(self.entries@, *a);
        }
        match self.find(a) {
            Some(i) => {
                proof {
                    lemma_entries_get(self.entries@, i as int);
                }
                Some(self.entries[i].1)
            },
            None => None,
        }
    }

    /// Whether `a` has a value.
    pub fn contains_key(&self, a: &SockAddr) -> (r: bool)
        ensures
            r == self@.dom().contains(*a),
    {
        proof {
            use_type_invariant(self);
            lemma_entries_dom(self.entries@, *a);
        }
        self.find(a).is_some()
    }

    /// Stores `v` for `a`, replacing a value stored before.
    pub fn insert(&mut self, a: SockAddr, v: V)
        ensures
            final(self)@ == old(self)@.insert(a, v),
    {
        proof {
            use_type_invariant(&*self);
        }
        match self.find(&a) {
            Some(i) => {
                let ghost old_entries = self.entries@;
                proof {
                    lemma_entries_update(old_entries, i as int, v);
                }
                let mut entries: Vec<(SockAddr, V)> = Vec::new();
                std::mem::swap(&mut entries, &mut self.entries);
                entries.set(i, (a, v));
                assert(entries@ == old_entries.update(i as int, (a, v)));
                self.entries = entries;
            },
            None => {
                let ghost old_entries = self.entries@;
                let mut entries: Vec<(SockAddr, V)> = Vec::new();
                std::mem::swap(&mut entries, &mut self.entries);
                entries.push((a, v));
                assert(entries@.drop_last() =~= old_entries);
                self.entries = entries;
            },
        }
    }

    /// The number of addresses that have a value.
    pub fn len(&self) -> (n: usize)
        ensures
            n == self@.dom().len(),
    {
        proof {
            use_type_invariant(self);
            lemma_entries_len(self.entries@);
        }
        self.entries.len()
    }
}

/// With distinct keys, the map has as many keys as the list has entries.
pub(crate) proof fn lemma_entries_len<K, V>(s: Seq<(K, V)>)
    requires
        keys_distinct(s),
    ensures
        entries_map(s).dom().finite(),
        entries_map(s).dom().len() == s.len(),
    decreases s.len(),
{
    if s.len() > 0 {
        assert(keys_distinct(s.drop_last()));
        lemma_entries_len(s.drop_last());
        lemma_entries_dom(s.drop_last(), s.last().0);
        if entries_map(s.drop_last()).dom().contains(s.last().0) {
            let i = choose|i: int| 0 <= i < s.drop_last().len() && s.drop_last()[i].0 == s.last().0;
            assert(s[i].0 == s[s.len() - 1].0);
        }
    }
}

} // verus!

verus! {

impl<V: Copy> AddrMap<V> {
    /// The addresses that have a value, each once, in storage order.
    pub fn keys(&self) -> (ks: Vec<SockAddr>)
        ensures
            forall|a: SockAddr| ks@.contains(a) <==> self@.dom().contains(a),
            forall|i: int, j: int| 0 <= i < j < ks@.len() ==> ks@[i] != ks@[j],
    {
        proof {
            use_type_invariant(self);
        }
        let mut ks: Vec<SockAddr> = Vec::new();
        let mut i: usize = 0;
        while i < self.entries.len()
            invariant
                i <= self.entries@.len(),
                keys_distinct(self.entries@),
                ks@.len() == i,
                forall|j: int| 0 <= j < i ==> ks@[j] == self.entries@[j].0,
            decreases self.entries@.len() - i,
        {
            ks.push(self.entries[i].0);
            i = i + 1;
        }
        proof {
            assert forall|a: SockAddr| ks@.contains(a) <==> self@.dom().contains(a) by {
                lemma_entries_dom(self.entries@, a);
                if self@.dom().contains(a) {
                    let k = choose|k: int| 0 <= k < self.entries@.len() && self.entries@[k].0 == a;
                    assert(ks@[k] == a);
                }
            }
        }
        ks
    }
}

} // verus!
