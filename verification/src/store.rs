//! A node's local copies: for each key its value and the version of that
//! value, and the keys whose invalidation still waits for acknowledgements.
use crate::types::NodeId;
use vstd::prelude::*;

verus! {

/// Whether two byte strings are equal.
pub fn bytes_equal(a: &[u8], b: &[u8]) -> (eq: bool)
    ensures
        eq == (a@ == b@),
{
    if a.len() != b.len() {
        return false;
    }
    let mut i: usize = 0;
    while i < a.len()
        invariant
            a@.len() == b@.len(),
            i <= a@.len(),
            forall|j: int| 0 <= j < i ==> a@[j] == b@[j],
        decreases a.len() - i,
    {
        if a[i] != b[i] {
            return false;
        }
        i = i + 1;
    }
    assert(a@ =~= b@);
    true
}

/// A copy of a byte string.
pub fn copy_bytes(a: &[u8]) -> (c: Vec<u8>)
    ensures
        c@ == a@,
{
    let mut c: Vec<u8> = Vec::new();
    let mut i: usize = 0;
    while i < a.len()
        invariant
            i <= a@.len(),
            c@ == a@.take(i as int),
        decreases a.len() - i,
    {
        c.push(a[i]);
        assert(c@ =~= a@.take(i + 1));
        i = i + 1;
    }
    assert(a@.take(a.len() as int) =~= a@);
    c
}

/// One key's copy.
pub struct StoredEntry {
    pub key: Vec<u8>,
    pub value: Vec<u8>,
    pub version: u64,
}

/// The mathematical value of a list of entries.
pub open spec fn entries_view(es: Seq<StoredEntry>) -> Seq<(Seq<u8>, Seq<u8>, u64)> {
    es.map_values(|e: StoredEntry| (e.key@, e.value@, e.version))
}

/// No key occurs twice.
pub open spec fn keys_distinct(es: Seq<(Seq<u8>, Seq<u8>, u64)>) -> bool {
    forall|i: int, j: int| 0 <= i < j < es.len() ==> es[i].0 != es[j].0
}

/// The map from each key to its value and version.
pub open spec fn entries_map(es: Seq<(Seq<u8>, Seq<u8>, u64)>) -> Map<Seq<u8>, (Seq<u8>, u64)> {
    Map::new(
        |k: Seq<u8>| exists|i: int| 0 <= i < es.len() && es[i].0 == k,
        |k: Seq<u8>|
            {
                let i = choose|i: int| 0 <= i < es.len() && es[i].0 == k;
                (es[i].1, es[i].2)
            },
    )
}

proof fn lemma_entries_map_at(es: Seq<(Seq<u8>, Seq<u8>, u64)>, i: int)
    requires
        keys_distinct(es),
        0 <= i < es.len(),
    ensures
        entries_map(es).contains_key(es[i].0),
        entries_map(es)[es[i].0] == (es[i].1, es[i].2),
{
    let k = es[i].0;
    assert(exists|j: int| 0 <= j < es.len() && es[j].0 == k);
    let j = choose|j: int| 0 <= j < es.len() && es[j].0 == k;
    if j != i {
        if j < i {
            assert(es[j].0 != es[i].0);
        } else {
            assert(es[i].0 != es[j].0);
        }
    }
}

proof fn lemma_entries_map_update(
    es: Seq<(Seq<u8>, Seq<u8>, u64)>,
    i: int,
    e: (Seq<u8>, Seq<u8>, u64),
)
    requires
        keys_distinct(es),
        0 <= i < es.len(),
        es[i].0 == e.0,
    ensures
        keys_distinct(es.update(i, e)),
        entries_map(es.update(i, e)) == entries_map(es).insert(e.0, (e.1, e.2)),
{
    let es2 = es.update(i, e);
    assert(keys_distinct(es2));
    lemma_entries_map_at(es2, i);
    let m1 = entries_map(es2);
    let m2 = entries_map(es).insert(e.0, (e.1, e.2));
    assert forall|k: Seq<u8>| m1.contains_key(k) <==> m2.contains_key(k) by {
        if k != e.0 {
            if m1.contains_key(k) {
                let j = choose|j: int| 0 <= j < es2.len() && es2[j].0 == k;
                assert(es[j].0 == k);
            }
            if m2.contains_key(k) {
                let j = choose|j: int| 0 <= j < es.len() && es[j].0 == k;
                assert(es2[j].0 == k);
            }
        }
    }
    assert forall|k: Seq<u8>| m1.contains_key(k) implies m1[k] == m2[k] by {
        if k != e.0 {
            let j = choose|j: int| 0 <= j < es2.len() && es2[j].0 == k;
            assert(j != i);
            lemma_entries_map_at(es2, j);
            lemma_entries_map_at(es, j);
        }
    }
    assert(m1 =~= m2);
}

proof fn lemma_entries_map_push(es: Seq<(Seq<u8>, Seq<u8>, u64)>, e: (Seq<u8>, Seq<u8>, u64))
    requires
        keys_distinct(es),
        !entries_map(es).contains_key(e.0),
    ensures
        keys_distinct(es.push(e)),
        entries_map(es.push(e)) == entries_map(es).insert(e.0, (e.1, e.2)),
{
    let es2 = es.push(e);
    assert forall|i: int, j: int| 0 <= i < j < es2.len() implies es2[i].0 != es2[j].0 by {
        if j == es.len() {
            if es[i].0 == e.0 {
                assert(entries_map(es).contains_key(e.0));
            }
        }
    }
    lemma_entries_map_at(es2, es.len() as int);
    let m1 = entries_map(es2);
    let m2 = entries_map(es).insert(e.0, (e.1, e.2));
    assert forall|k: Seq<u8>| m1.contains_key(k) <==> m2.contains_key(k) by {
        if k != e.0 {
            if m1.contains_key(k) {
                let j = choose|j: int| 0 <= j < es2.len() && es2[j].0 == k;
                assert(es[j].0 == k);
            }
            if m2.contains_key(k) {
                let j = choose|j: int| 0 <= j < es.len() && es[j].0 == k;
                assert(es2[j].0 == k);
            }
        }
    }
    assert forall|k: Seq<u8>| m1.contains_key(k) implies m1[k] == m2[k] by {
        if k != e.0 {
            let j = choose|j: int| 0 <= j < es2.len() && es2[j].0 == k;
            lemma_entries_map_at(es2, j);
            lemma_entries_map_at(es, j);
        }
    }
    assert(m1 =~= m2);
}

/// The store after a validation of `key` to `value` at `version`: the copy is
/// replaced unless the store already holds the key at a version that is not
/// lower.
pub open spec fn validated(
    d: Map<Seq<u8>, (Seq<u8>, u64)>,
    key: Seq<u8>,
    value: Seq<u8>,
    version: u64,
) -> Map<Seq<u8>, (Seq<u8>, u64)> {
    if d.contains_key(key) && version <= d[key].1 {
        d
    } else {
        d.insert(key, (value, version))
    }
}

/// The store after an invalidation of `key`: a copy of the key, if there is
/// one, loses its value and keeps its version.
pub open spec fn invalidated(d: Map<Seq<u8>, (Seq<u8>, u64)>, key: Seq<u8>) -> Map<
    Seq<u8>,
    (Seq<u8>, u64),
> {
    if d.contains_key(key) {
        d.insert(key, (Seq::empty(), d[key].1))
    } else {
        d
    }
}

/// The local copies of a node.
pub struct DataStore {
    entries: Vec<StoredEntry>,
}

impl View for DataStore {
    type V = Map<Seq<u8>, (Seq<u8>, u64)>;

    closed spec fn view(&self) -> Map<Seq<u8>, (Seq<u8>, u64)> {
        entries_map(entries_view(self.entries@))
    }
}

impl DataStore {
    /// No key has two copies.
    pub closed spec fn well_formed(&self) -> bool {
        keys_distinct(entries_view(self.entries@))
    }

    /// A store without copies.
    pub fn new() -> (d: DataStore)
        ensures
            d.well_formed(),
            d@ == Map::<Seq<u8>, (Seq<u8>, u64)>::empty(),
    {
        let d = DataStore { entries: Vec::new() };
        assert(d@ =~= Map::<Seq<u8>, (Seq<u8>, u64)>::empty());
        d
    }

    fn find(&self, key: &[u8]) -> (r: Option<usize>)
        requires
            self.well_formed(),
        ensures
            match r {
                Some(i) => i < self.entries@.len() && self.entries@[i as int].key@ == key@,
                None => !self@.contains_key(key@),
            },
    {
        let ghost es = entries_view(self.entries@);
        let mut i: usize = 0;
        while i < self.entries.len()
            invariant
                i <= self.entries@.len(),
                es == entries_view(self.entries@),
                forall|j: int| 0 <= j < i ==> es[j].0 != key@,
            decreases self.entries.len() - i,
        {
            if bytes_equal(self.entries[i].key.as_slice(), key) {
                return Some(i);
            }
            i = i + 1;
        }
        None
    }

    /// The value and version of `key`'s copy, if there is one.
    pub fn get(&self, key: &[u8]) -> (r: Option<(Vec<u8>, u64)>)
        requires
            self.well_formed(),
        ensures
            match r {
                Some(c) => self@.contains_key(key@) && self@[key@] == (c.0@, c.1),
                None => !self@.contains_key(key@),
            },
    {
        match self.find(key) {
            Some(i) => {
                proof {
                    lemma_entries_map_at(entries_view(self.entries@), i as int);
                }
                let value = copy_bytes(self.entries[i].value.as_slice());
                Some((value, self.entries[i].version))
            },
            None => None,
        }
    }

    /// The version of `key`'s copy, if there is one.
    pub fn version(&self, key: &[u8]) -> (r: Option<u64>)
        requires
            self.well_formed(),
        ensures
            match r {
                Some(v) => self@.contains_key(key@) && self@[key@].1 == v,
                None => !self@.contains_key(key@),
            },
    {
        match self.find(key) {
            Some(i) => {
                proof {
                    lemma_entries_map_at(entries_view(self.entries@), i as int);
                }
                Some(self.entries[i].version)
            },
            None => None,
        }
    }

    /// Makes `value` at `version` the copy of `key`.
    pub fn insert(&mut self, key: Vec<u8>, value: Vec<u8>, version: u64)
        requires
            old(self).well_formed(),
        ensures
            final(self).well_formed(),
            final(self)@ == old(self)@.insert(key@, (value@, version)),
    {
        let ghost es = entries_view(self.entries@);
        let ghost e = (key@, value@, version);
        match self.find(key.as_slice()) {
            Some(i) => {
                proof {
                    lemma_entries_map_update(es, i as int, e);
                }
                self.entries.set(i, StoredEntry { key, value, version });
                assert(entries_view(self.entries@) =~= es.update(i as int, e));
            },
            None => {
                proof {
                    lemma_entries_map_push(es, e);
                }
                self.entries.push(StoredEntry { key, value, version });
                assert(entries_view(self.entries@) =~= es.push(e));
            },
        }
    }

    /// Invalidates `key`'s copy, if there is one: its value is cleared and its
    /// version kept.
    pub fn invalidate(&mut self, key: &[u8])
        requires
            old(self).well_formed(),
        ensures
            final(self).well_formed(),
            final(self)@ == invalidated(old(self)@, key@),
    {
        let ghost es = entries_view(self.entries@);
        match self.find(key) {
            Some(i) => {
                let version = self.entries[i].version;
                let k = copy_bytes(key);
                let ghost e = (key@, Seq::<u8>::empty(), version);
                proof {
                    lemma_entries_map_at(es, i as int);
                    lemma_entries_map_update(es, i as int, e);
                }
                self.entries.set(i, StoredEntry { key: k, value: Vec::new(), version });
                assert(entries_view(self.entries@) =~= es.update(i as int, e));
            },
            None => {},
        }
    }

    /// Applies a validation: `value` at `version` becomes `key`'s copy unless
    /// the copy held already has a version that is not lower.
    pub fn validate(&mut self, key: Vec<u8>, value: Vec<u8>, version: u64)
        requires
            old(self).well_formed(),
        ensures
            final(self).well_formed(),
            final(self)@ == validated(old(self)@, key@, value@, version),
    {
        match self.version(key.as_slice()) {
            Some(current) => {
                if version <= current {
                    return ;
                }
            },
            None => {},
        }
        self.insert(key, value, version);
    }
}

/// The keys whose invalidation waits for acknowledgements, each with the
/// nodes that have yet to acknowledge it.
pub struct PendingInvalidations {
    entries: Vec<(Vec<u8>, Vec<NodeId>)>,
}

impl View for PendingInvalidations {
    type V = Seq<(Seq<u8>, Seq<NodeId>)>;

    closed spec fn view(&self) -> Seq<(Seq<u8>, Seq<NodeId>)> {
        self.entries@.map_values(|e: (Vec<u8>, Vec<NodeId>)| (e.0@, e.1@))
    }
}

/// No node still has to acknowledge the invalidation of `key`.
pub open spec fn invalidation_settled(p: Seq<(Seq<u8>, Seq<NodeId>)>, key: Seq<u8>) -> bool {
    forall|i: int| 0 <= i < p.len() && p[i].0 == key ==> p[i].1.len() == 0
}

impl PendingInvalidations {
    /// Nothing pending.
    pub fn new() -> (p: PendingInvalidations)
        ensures
            p@ == Seq::<(Seq<u8>, Seq<NodeId>)>::empty(),
    {
        let p = PendingInvalidations { entries: Vec::new() };
        assert(p@ =~= Seq::<(Seq<u8>, Seq<NodeId>)>::empty());
        p
    }

    /// Whether no node still has to acknowledge the invalidation of `key`.
    pub fn is_settled(&self, key: &[u8]) -> (b: bool)
        ensures
            b == invalidation_settled(self@, key@),
    {
        let mut i: usize = 0;
        while i < self.entries.len()
            invariant
                i <= self.entries@.len(),
                self@.len() == self.entries@.len(),
                forall|j: int| 0 <= j < i && self@[j].0 == key@ ==> self@[j].1.len() == 0,
            decreases self.entries.len() - i,
        {
            if bytes_equal(self.entries[i].0.as_slice(), key) && self.entries[i].1.len() > 0 {
                assert(self@[i as int] == (self.entries@[i as int].0@, self.entries@[i as int].1@));
                return false;
            }
            i = i + 1;
        }
        true
    }
}

} // verus!
