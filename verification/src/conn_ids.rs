//! The server's routing table: which connection each connection ID belongs
//! to.
use vstd::prelude::*;
use crate::addr_map::{entries_map, keys_distinct, lemma_entries_dom, lemma_entries_get, lemma_entries_update};
use crate::bytes::bytes_eq;
use crate::conn::{derived_conn_id, lookup_connection, max_hmac_input};

verus! {

/// The entries of the table, with each ID taken as its bytes.
pub open spec fn id_entries(s: Seq<(Vec<u8>, u64)>) -> Seq<(Seq<u8>, u64)> {
    s.map_values(|e: (Vec<u8>, u64)| (e.0@, e.1))
}

/// Removing entry `i` of a list with distinct keys keeps the keys distinct
/// and removes its key from the map.
proof fn lemma_entries_remove(s: Seq<(Seq<u8>, u64)>, i: int)
    requires
        keys_distinct(s),
        0 <= i < s.len(),
    ensures
        keys_distinct(s.remove(i)),
        entries_map(s.remove(i)) == entries_map(s).remove(s[i].0),
    decreases s.len(),
{
    let t = s.remove(i);
    assert forall|a: int, b: int| 0 <= a < b < t.len() implies t[a].0 != t[b].0 by {
        let a2 = if a < i { a } else { a + 1 };
        let b2 = if b < i { b } else { b + 1 };
        assert(t[a] == s[a2]);
        assert(t[b] == s[b2]);
    }
    let k = s[i].0;
    if i == s.len() - 1 {
        assert(t =~= s.drop_last());
        lemma_entries_dom(s.drop_last(), k);
        assert(!entries_map(s.drop_last()).dom().contains(k)) by {
            if entries_map(s.drop_last()).dom().contains(k) {
                let j = choose|j: int| 0 <= j < s.drop_last().len() && s.drop_last()[j].0 == k;
                assert(s[j].0 == s[i].0);
            }
        }
        assert(entries_map(t) =~= entries_map(s).remove(k));
    } else {
        assert(keys_distinct(s.drop_last()));
        assert(t.drop_last() =~= s.drop_last().remove(i));
        assert(t.last() == s.last());
        lemma_entries_remove(s.drop_last(), i);
        assert(s.last().0 != k);
        assert(entries_map(t) =~= entries_map(s).remove(k));
    }
}

/// A table from connection IDs to connection numbers, kept as a list of
/// entries in which no ID occurs twice.
pub struct ConnIdMap {
    entries: Vec<(Vec<u8>, u64)>,
}

impl View for ConnIdMap {
    type V = Map<Seq<u8>, u64>;

    closed spec fn view(&self) -> Map<Seq<u8>, u64> {
        entries_map(id_entries(self.entries@))
    }
}

/// The connection that a packet belongs to: the one of its destination ID,
/// or else the one of the ID derived from it.
pub open spec fn spec_route(m: Map<Seq<u8>, u64>, dcid: Seq<u8>, derived: Seq<u8>) -> Option<u64> {
    if m.dom().contains(dcid) {
        Some(m[dcid])
    } else if m.dom().contains(derived) {
        Some(m[derived])
    } else {
        None
    }
}

impl ConnIdMap {
    #[verifier::type_invariant]
    closed spec fn inv(self) -> bool {
        keys_distinct(id_entries(self.entries@))
    }

    /// An empty table.
    pub fn new() -> (m: Self)
        ensures
            m@ == Map::<Seq<u8>, u64>::empty(),
    {
        let m = ConnIdMap { entries: Vec::new() };
        assert(id_entries(m.entries@) =~= Seq::<(Seq<u8>, u64)>::empty());
        m
    }

    fn find(&self, id: &[u8]) -> (r: Option<usize>)
        ensures
            match r {
                Some(i) => i < self.entries@.len() && id_entries(self.entries@)[i as int].0 == id@,
                None => forall|i: int| 0 <= i < self.entries@.len() ==> id_entries(self.entries@)[i].0 != id@,
            },
    {
        let mut i: usize = 0;
        while i < self.entries.len()
            invariant
                i <= self.entries@.len(),
                forall|j: int| 0 <= j < i ==> id_entries(self.entries@)[j].0 != id@,
            decreases self.entries@.len() - i,
        {
            if bytes_eq(self.entries[i].0.as_slice(), id) {
                return Some(i);
            }
            i = i + 1;
        }
        None
    }

    /// The connection of an ID, if any.
    pub fn get(&self, id: &[u8]) -> (r: Option<u64>)
        ensures
            r == (if self@.dom().contains(id@) { Some(self@[id@]) } else { None }),
    {
        proof {
            use_type_invariant(self);
            lemma_entries_dom(id_entries(self.entries@), id@);
        }
        match self.find(id) {
            Some(i) => {
                proof {
                    lemma_entries_get(id_entries(self.entries@), i as int);
                }
                Some(self.entries[i].1)
            },
            None => None,
        }
    }

    /// Whether an ID belongs to a connection.
    pub fn contains(&self, id: &[u8]) -> (r: bool)
        ensures
            r == self@.dom().contains(id@),
    {
        proof {
            use_type_invariant(self);
            lemma_entries_dom(id_entries(self.entries@), id@);
        }
        self.find(id).is_some()
    }

    /// Records that `id` belongs to connection `n`, in place of any earlier
    /// owner.
    pub fn insert(&mut self, id: Vec<u8>, n: u64)
        ensures
            final(self)@ == old(self)@.insert(id@, n),
    {
        proof {
            use_type_invariant(&*self);
        }
        let ghost old_entries = self.entries@;
        let ghost idv = id@;
        match self.find(id.as_slice()) {
            Some(i) => {
                proof {
                    lemma_entries_update(id_entries(old_entries), i as int, n);
                }
                let mut entries: Vec<(Vec<u8>, u64)> = Vec::new();
                std::mem::swap(&mut entries, &mut self.entries);
                entries.set(i, (id, n));
                assert(id_entries(entries@) =~= id_entries(old_entries).update(
                    i as int,
                    (id_entries(old_entries)[i as int].0, n),
                ));
                self.entries = entries;
            },
            None => {
                let mut entries: Vec<(Vec<u8>, u64)> = Vec::new();
                std::mem::swap(&mut entries, &mut self.entries);
                entries.push((id, n));
                assert(id_entries(entries@).drop_last() =~= id_entries(old_entries));
                assert(id_entries(entries@).last() == (idv, n));
                assert forall|a: int, b: int| 0 <= a < b < id_entries(entries@).len() implies id_entries(
                    entries@,
                )[a].0 != id_entries(entries@)[b].0 by {
                    if b < id_entries(entries@).len() - 1 {
                        assert(id_entries(entries@)[a] == id_entries(old_entries)[a]);
                        assert(id_entries(entries@)[b] == id_entries(old_entries)[b]);
                    } else {
                        assert(id_entries(entries@)[a] == id_entries(old_entries)[a]);
                    }
                }
                self.entries = entries;
            },
        }
    }

    /// Forgets an ID.
    pub fn remove(&mut self, id: &[u8])
        ensures
            final(self)@ == old(self)@.remove(id@),
    {
        proof {
            use_type_invariant(&*self);
            lemma_entries_dom(id_entries(self.entries@), id@);
        }
        let ghost old_entries = self.entries@;
        match self.find(id) {
            Some(i) => {
                proof {
                    lemma_entries_remove(id_entries(old_entries), i as int);
                }
                let mut entries: Vec<(Vec<u8>, u64)> = Vec::new();
                std::mem::swap(&mut entries, &mut self.entries);
                entries.remove(i);
                assert(id_entries(entries@) =~= id_entries(old_entries).remove(i as int));
                self.entries = entries;
            },
            None => {
                assert(self@ =~= old(self)@.remove(id@));
            },
        }
    }

    /// The connection a packet belongs to, looked up by its destination ID
    /// and then by the ID derived from it.
    pub fn route(&self, dcid: &[u8], derived: &[u8]) -> (r: Option<u64>)
        ensures
            r == spec_route(self@, dcid@, derived@),
    {
        match self.get(dcid) {
            Some(n) => Some(n),
            None => self.get(derived),
        }
    }
}

/// The IDs of a list, as byte sequences.
pub open spec fn id_set(ids: Seq<Vec<u8>>) -> Set<Seq<u8>> {
    Set::new(|k: Seq<u8>| exists|i: int| 0 <= i < ids.len() && (#[trigger] ids[i])@ == k)
}

/// The server's connections: the table from connection IDs to connection
/// numbers, and the number that the next accepted connection gets.
pub struct ClientTable {
    ids: ConnIdMap,
    next_id: u64,
}

impl ClientTable {
    /// Which connection each known ID belongs to.
    pub closed spec fn ids(&self) -> Map<Seq<u8>, u64> {
        self.ids@
    }

    /// The number of the next accepted connection.
    pub closed spec fn next(&self) -> u64 {
        self.next_id
    }

    /// No connection yet; the first gets number 0.
    pub fn new() -> (t: Self)
        ensures
            t.ids() == Map::<Seq<u8>, u64>::empty(),
            t.next() == 0,
    {
        ClientTable { ids: ConnIdMap::new(), next_id: 0 }
    }

    /// The number of the next accepted connection.
    pub fn next_id(&self) -> (n: u64)
        ensures
            n == self.next(),
    {
        self.next_id
    }

    /// The connection a packet belongs to, by its destination ID or else by
    /// the ID derived from it with `seed`, together with that derived ID.
    pub fn lookup(&self, seed: &[u8], dcid: &[u8]) -> (r: (Vec<u8>, Option<u64>))
        requires
            seed@.len() <= max_hmac_input(),
            dcid@.len() <= max_hmac_input(),
        ensures
            r.0@ == derived_conn_id(seed@, dcid@),
            r.1 == spec_route(self.ids(), dcid@, derived_conn_id(seed@, dcid@)),
    {
        lookup_connection(&self.ids, seed, dcid)
    }

    /// Numbers a newly accepted connection and files it under `conn_id`.
    pub fn register(&mut self, conn_id: Vec<u8>) -> (n: u64)
        requires
            old(self).next() < u64::MAX,
        ensures
            n == old(self).next(),
            final(self).next() == old(self).next() + 1,
            final(self).ids() == old(self).ids().insert(conn_id@, n),
    {
        let n = self.next_id;
        self.ids.insert(conn_id, n);
        self.next_id = n + 1;
        n
    }

    /// Files a further ID of connection `n`.
    pub fn add_id(&mut self, id: Vec<u8>, n: u64)
        ensures
            final(self).next() == old(self).next(),
            final(self).ids() == old(self).ids().insert(id@, n),
    {
        self.ids.insert(id, n);
    }

    /// Forgets an ID that a connection retired.
    pub fn retire(&mut self, id: &[u8])
        ensures
            final(self).next() == old(self).next(),
            final(self).ids() == old(self).ids().remove(id@),
    {
        self.ids.remove(id);
    }

    /// Forgets all the IDs of a closed connection.
    pub fn collect(&mut self, source_ids: &Vec<Vec<u8>>)
        ensures
            final(self).next() == old(self).next(),
            final(self).ids() == old(self).ids().remove_keys(id_set(source_ids@)),
    {
        let ghost start = self.ids@;
        let mut i: usize = 0;
        assert(start.remove_keys(id_set(source_ids@.take(0))) =~= start);
        while i < source_ids.len()
            invariant
                i <= source_ids@.len(),
                self.next_id == old(self).next_id,
                start == old(self).ids@,
                self.ids@ == start.remove_keys(id_set(source_ids@.take(i as int))),
            decreases source_ids@.len() - i,
        {
            let ghost prev = source_ids@.take(i as int);
            self.ids.remove(source_ids[i].as_slice());
            proof {
                let next = source_ids@.take(i + 1);
                assert(next[i as int] == source_ids@[i as int]);
                assert forall|k: Seq<u8>| id_set(next).contains(k) <==> (id_set(prev).contains(k) || k == source_ids@[i as int]@) by {
                    if id_set(next).contains(k) {
                        let j = choose|j: int| 0 <= j < next.len() && (#[trigger] next[j])@ == k;
                        if j < i {
                            assert(prev[j] == next[j]);
                        }
                    }
                    if id_set(prev).contains(k) {
                        let j = choose|j: int| 0 <= j < prev.len() && (#[trigger] prev[j])@ == k;
                        assert(next[j] == prev[j]);
                    }
                }
                assert(self.ids@ =~= start.remove_keys(id_set(next)));
            }
            i = i + 1;
        }
        assert(source_ids@.take(source_ids@.len() as int) =~= source_ids@);
    }
}

} // verus!
