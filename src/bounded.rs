use linked_hash_map::LinkedHashMap;
use vstd::prelude::*;

verus! {

#[verifier::external_type_specification]
#[verifier::external_body]
#[verifier::reject_recursive_types(K)]
#[verifier::reject_recursive_types(V)]
#[verifier::reject_recursive_types(S)]
pub struct ExLinkedHashMap<K, V, S>(LinkedHashMap<K, V, S>);

/// What a table holds: its (key, content) pairs, oldest insertion first.
pub uninterp spec fn entries_of(m: LinkedHashMap<String, Vec<u8>>) -> Seq<(Seq<char>, Seq<u8>)>;

/// The keys of a sequence of entries, in the same order.
pub open spec fn keys_of(s: Seq<(Seq<char>, Seq<u8>)>) -> Seq<Seq<char>> {
    s.map_values(|e: (Seq<char>, Seq<u8>)| e.0)
}

/// Whether some entry is filed under `k`.
pub open spec fn has_key(s: Seq<(Seq<char>, Seq<u8>)>, k: Seq<char>) -> bool {
    exists|i: int| 0 <= i < s.len() && #[trigger] s[i].0 == k
}

/// No two entries share a key.
pub open spec fn keys_distinct(s: Seq<(Seq<char>, Seq<u8>)>) -> bool {
    forall|i: int, j: int| 0 <= i < s.len() && 0 <= j < s.len() && i != j ==> #[trigger] s[i].0 != #[trigger] s[j].0
}

/// The content filed under `k`, if any.
pub open spec fn lookup(s: Seq<(Seq<char>, Seq<u8>)>, k: Seq<char>) -> Option<Seq<u8>> {
    if has_key(s, k) {
        Some(s[choose|i: int| 0 <= i < s.len() && #[trigger] s[i].0 == k].1)
    } else {
        None
    }
}

/// Keeps the `cap` newest entries, dropping the oldest ones.
pub open spec fn trim_oldest(s: Seq<(Seq<char>, Seq<u8>)>, cap: nat) -> Seq<(Seq<char>, Seq<u8>)> {
    if s.len() > cap {
        s.subrange(s.len() - cap, s.len() as int)
    } else {
        s
    }
}

/// The entries after filing `v` under `k` in a store of capacity `cap`:
/// an existing key keeps its place and takes the new content; a new key
/// goes last, and the oldest entries leave until `cap` remain.
pub open spec fn put_model(s: Seq<(Seq<char>, Seq<u8>)>, cap: nat, k: Seq<char>, v: Seq<u8>) -> Seq<(Seq<char>, Seq<u8>)> {
    if has_key(s, k) {
        s.update(choose|i: int| 0 <= i < s.len() && #[trigger] s[i].0 == k, (k, v))
    } else {
        trim_oldest(s.push((k, v)), cap)
    }
}

/// The bytes of an optional content.
pub open spec fn bytes_of(r: Option<Vec<u8>>) -> Option<Seq<u8>> {
    match r {
        Some(v) => Some(v@),
        None => None,
    }
}

/// Relies on LinkedHashMap::new: the table starts empty.
#[verifier::external_body]
fn table_new() -> (r: LinkedHashMap<String, Vec<u8>>)
    ensures
        entries_of(r) == Seq::<(Seq<char>, Seq<u8>)>::empty(),
{
    LinkedHashMap::new()
}

/// Relies on LinkedHashMap::len: the number of entries.
#[verifier::external_body]
fn table_len(m: &LinkedHashMap<String, Vec<u8>>) -> (r: usize)
    ensures
        r == entries_of(*m).len(),
{
    m.len()
}

/// Relies on LinkedHashMap::contains_key: whether an entry has the key.
#[verifier::external_body]
fn table_contains(m: &LinkedHashMap<String, Vec<u8>>, k: &str) -> (r: bool)
    ensures
        r == has_key(entries_of(*m), k@),
{
    m.contains_key(k)
}

/// Relies on LinkedHashMap::get: the content under the key, cloned out,
/// without touching the order of the entries.
#[verifier::external_body]
fn table_get(m: &LinkedHashMap<String, Vec<u8>>, k: &str) -> (r: Option<Vec<u8>>)
    ensures
        bytes_of(r) == lookup(entries_of(*m), k@),
{
    m.get(k).cloned()
}

/// Relies on LinkedHashMap::insert: a key not yet present is attached as
/// the newest entry.
#[verifier::external_body]
fn table_insert(m: &mut LinkedHashMap<String, Vec<u8>>, k: String, v: Vec<u8>)
    requires
        !has_key(entries_of(*old(m)), k@),
    ensures
        entries_of(*final(m)) == entries_of(*old(m)).push((k@, v@)),
{
    m.insert(k, v);
}

/// Relies on LinkedHashMap::get_mut: the content under a present key is
/// replaced where it stands; the order of the entries is untouched.
#[verifier::external_body]
fn table_overwrite(m: &mut LinkedHashMap<String, Vec<u8>>, k: &str, v: Vec<u8>)
    requires
        has_key(entries_of(*old(m)), k@),
    ensures
        forall|i: int|
            0 <= i < entries_of(*old(m)).len() && #[trigger] entries_of(*old(m))[i].0 == k@
                ==> entries_of(*final(m)) == entries_of(*old(m)).update(i, (k@, v@)),
{
    *m.get_mut(k).unwrap() = v;
}

/// Relies on LinkedHashMap::pop_front: the oldest entry leaves.
#[verifier::external_body]
fn table_pop_front(m: &mut LinkedHashMap<String, Vec<u8>>)
    requires
        entries_of(*old(m)).len() > 0,
    ensures
        entries_of(*final(m)) == entries_of(*old(m)).drop_first(),
{
    m.pop_front();
}

/// Drops the oldest entries of `table` until at most `capacity` remain.
fn purge_old(table: &mut LinkedHashMap<String, Vec<u8>>, capacity: usize)
    ensures
        entries_of(*final(table)) == trim_oldest(entries_of(*old(table)), capacity as nat),
{
    let ghost orig = entries_of(*table);
    while table_len(table) > capacity
        invariant
            entries_of(*table).len() <= orig.len(),
            entries_of(*table) == orig.subrange(orig.len() - entries_of(*table).len(), orig.len() as int),
            entries_of(*table).len() >= capacity || entries_of(*table) == orig,
        decreases entries_of(*table).len(),
    {
        table_pop_front(table);
    }
    assert(entries_of(*table) =~= trim_oldest(orig, capacity as nat));
}

/// A table of at most `capacity` pastes, evicted first in, first out.
pub struct BoundedStore {
    table: LinkedHashMap<String, Vec<u8>>,
    capacity: usize,
}

impl View for BoundedStore {
    type V = Seq<(Seq<char>, Seq<u8>)>;

    closed spec fn view(&self) -> Seq<(Seq<char>, Seq<u8>)> {
        entries_of(self.table)
    }
}

impl BoundedStore {
    #[verifier::type_invariant]
    spec fn well_formed(self) -> bool {
        &&& entries_of(self.table).len() <= self.capacity
        &&& keys_distinct(entries_of(self.table))
    }

    pub closed spec fn spec_capacity(&self) -> nat {
        self.capacity as nat
    }

    /// An empty store that holds at most `capacity` pastes.
    pub fn new(capacity: usize) -> (r: BoundedStore)
        ensures
            r@ == Seq::<(Seq<char>, Seq<u8>)>::empty(),
            r.spec_capacity() == capacity,
    {
        BoundedStore { table: table_new(), capacity }
    }

    /// The most pastes the store holds at once.
    pub fn capacity(&self) -> (r: usize)
        ensures
            r == self.spec_capacity(),
    {
        self.capacity
    }

    /// How many pastes the store holds now.
    pub fn len(&self) -> (r: usize)
        ensures
            r == self@.len(),
            r <= self.spec_capacity(),
            keys_distinct(self@),
    {
        proof { use_type_invariant(self); }
        table_len(&self.table)
    }

    /// Files `content` under `id`. A present `id` takes the new content in
    /// its old place in the eviction order; a new one becomes the newest
    /// entry, and the oldest entries are evicted down to the capacity.
    pub fn put(&mut self, id: String, content: Vec<u8>)
        requires
            id@.len() > 0,
        ensures
            final(self)@ == put_model(old(self)@, old(self).spec_capacity(), id@, content@),
            final(self).spec_capacity() == old(self).spec_capacity(),
            final(self)@.len() <= final(self).spec_capacity(),
            keys_distinct(final(self)@),
    {
        proof { use_type_invariant(&*self); }
        let ghost s = self@;
        let mut table = table_new();
        std::mem::swap(&mut table, &mut self.table);
        if table_contains(&table, id.as_str()) {
            table_overwrite(&mut table, id.as_str(), content);
            proof {
                let i = choose|i: int| 0 <= i < s.len() && #[trigger] s[i].0 == id@;
                assert(entries_of(table) == s.update(i, (id@, content@)));
                let t = entries_of(table);
                assert forall|a: int, b: int| 0 <= a < t.len() && 0 <= b < t.len() && a != b implies #[trigger] t[a].0 != #[trigger] t[b].0 by {
                    assert(s[a].0 == t[a].0);
                    assert(s[b].0 == t[b].0);
                }
            }
        } else {
            table_insert(&mut table, id, content);
            let ghost pushed = entries_of(table);
            purge_old(&mut table, self.capacity);
            proof {
                let t = entries_of(table);
                assert forall|a: int, b: int| 0 <= a < t.len() && 0 <= b < t.len() && a != b implies #[trigger] t[a].0 != #[trigger] t[b].0 by {
                    let off = pushed.len() - t.len();
                    assert(t[a] == pushed[a + off]);
                    assert(t[b] == pushed[b + off]);
                    if a + off < s.len() && b + off < s.len() {
                        assert(s[a + off] == pushed[a + off]);
                        assert(s[b + off] == pushed[b + off]);
                    } else if a + off < s.len() {
                        assert(s[a + off] == pushed[a + off]);
                    } else if b + off < s.len() {
                        assert(s[b + off] == pushed[b + off]);
                    }
                }
            }
        }
        self.table = table;
    }

    /// The content filed under `id`, or `None` where none is. The order of
    /// the entries is untouched.
    pub fn get(&self, id: &str) -> (r: Option<Vec<u8>>)
        ensures
            bytes_of(r) == lookup(self@, id@),
            self@.len() <= self.spec_capacity(),
            keys_distinct(self@),
    {
        proof { use_type_invariant(self); }
        table_get(&self.table, id)
    }
}

} // verus!
