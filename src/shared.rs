use crate::ident::{generate_id, id_shape};
use crate::bounded::BoundedStore;
use std::sync::{RwLock, RwLockReadGuard, RwLockWriteGuard};
use vstd::prelude::*;

verus! {

#[verifier::external_type_specification]
#[verifier::external_body]
#[verifier::reject_recursive_types(T)]
pub struct ExRwLock<T: ?Sized>(RwLock<T>);

#[verifier::external_type_specification]
#[verifier::external_body]
#[verifier::reject_recursive_types(T)]
pub struct ExRwLockReadGuard<'a, T: ?Sized>(RwLockReadGuard<'a, T>);

#[verifier::external_type_specification]
#[verifier::external_body]
#[verifier::reject_recursive_types(T)]
pub struct ExRwLockWriteGuard<'a, T: ?Sized + 'a>(RwLockWriteGuard<'a, T>);

/// Relies on RwLock::new: a lock around the given store.
#[verifier::external_body]
fn lock_new(s: BoundedStore) -> (r: RwLock<BoundedStore>) {
    RwLock::new(s)
}

/// Relies on RwLock::write: blocks until no other guard is held. A lock
/// poisoned by a panic still guards a store that meets its invariant, since
/// every `BoundedStore` does, so the guard is taken out of the error.
#[verifier::external_body]
fn lock_write(l: &RwLock<BoundedStore>) -> (r: RwLockWriteGuard<'_, BoundedStore>) {
    match l.write() {
        Ok(g) => g,
        Err(e) => e.into_inner(),
    }
}

/// Relies on RwLock::read: blocks until no write guard is held. Poisoning
/// is passed over as for `lock_write`.
#[verifier::external_body]
fn lock_read(l: &RwLock<BoundedStore>) -> (r: RwLockReadGuard<'_, BoundedStore>) {
    match l.read() {
        Ok(g) => g,
        Err(e) => e.into_inner(),
    }
}

/// Relies on the write guard's DerefMut: the guarded store, exclusively.
#[verifier::external_body]
fn write_access<'b>(g: &'b mut RwLockWriteGuard<'_, BoundedStore>) -> (r: &'b mut BoundedStore) {
    &mut *g
}

/// Relies on the read guard's Deref: the guarded store, shared.
#[verifier::external_body]
fn read_access<'b>(g: &'b RwLockReadGuard<'_, BoundedStore>) -> (r: &'b BoundedStore) {
    &*g
}

/// A bounded store shared between threads: any number of readers, or one
/// writer whose insertion and eviction happen in one critical section.
pub struct PasteStore {
    lock: RwLock<BoundedStore>,
    capacity: usize,
}

impl PasteStore {
    pub closed spec fn spec_capacity(&self) -> nat {
        self.capacity as nat
    }

    /// An empty shared store that holds at most `capacity` pastes.
    pub fn new(capacity: usize) -> (r: PasteStore)
        ensures
            r.spec_capacity() == capacity,
    {
        PasteStore { lock: lock_new(BoundedStore::new(capacity)), capacity }
    }

    /// The capacity the store was made with.
    pub fn capacity(&self) -> (r: usize)
        ensures
            r == self.spec_capacity(),
    {
        self.capacity
    }
}

/// Files `content` under `id` while holding the write lock, so that the
/// insertion and the evictions it causes form one critical section. The
/// guarded store changes exactly as `BoundedStore::put` says; since every
/// `BoundedStore` keeps its invariant, no reader ever sees more entries
/// than the capacity.
pub fn store_paste(entries: &PasteStore, id: String, content: Vec<u8>)
    requires
        id@.len() > 0,
{
    let mut guard = lock_write(&entries.lock);
    let store = write_access(&mut guard);
    store.put(id, content);
}

/// The content filed under `id`, or `None` where none is (never filed, or
/// evicted since). It is `BoundedStore::get` on the store as it stands
/// under the read lock; writers may change it before and after, so nothing
/// about the result is known to the caller beyond that.
pub fn get_paste(entries: &PasteStore, id: &str) -> (r: Option<Vec<u8>>) {
    let guard = lock_read(&entries.lock);
    let store = read_access(&guard);
    store.get(id)
}

/// Files `content` under a fresh identifier and returns the identifier.
/// Identifiers may collide; a collision overwrites the earlier paste.
pub fn store(entries: &PasteStore, content: Vec<u8>) -> (id: String)
    ensures
        id_shape(id@),
{
    let id = generate_id();
    let kept = id.clone();
    store_paste(entries, id, content);
    kept
}

} // verus!
