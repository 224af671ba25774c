//! The sharded TTL store and the per-key lock table.
//!
//! Both maps come from the `dashmap` crate and are shared: handles made
//! with [`Store::handle`] / [`LockManager::handle`] address the same map,
//! and connection tasks and the sweeper mutate it concurrently. The
//! contracts below state what each operation does to the contents taken
//! in isolation; read-modify-write sequences that span several operations
//! on one key are serialized by the per-key reader/writer locks.

use vstd::prelude::*;
use std::sync::{Arc, RwLock};
use dashmap::DashMap;

verus! {

/// Number of independently locked shards of each map.
pub const NUM_SHARDS: usize = 32;

/// One stored entry: the value and its TTL metadata.
///
/// `expiry_secs` is the TTL the client gave (0 means "never expires");
/// `expiry_timestamp` is the absolute expiry in milliseconds since the
/// Unix epoch, and is 0 exactly when `expiry_secs` is 0.
#[derive(Debug, Clone)]
pub struct DBItem {
    pub expiry_timestamp: u128,
    pub expiry_secs: u128,
    pub value: Vec<u8>,
}

impl View for DBItem {
    type V = (u128, u128, Seq<u8>);

    open spec fn view(&self) -> (u128, u128, Seq<u8>) {
        (self.expiry_timestamp, self.expiry_secs, self.value@)
    }
}

/// A handle to the sharded concurrent map from key to entry.
#[verifier::external_body]
pub struct Store {
    inner: Arc<DashMap<String, DBItem>>,
}

/// The contents of the map a store handle addresses: key to
/// `(expiry_timestamp, expiry_secs, value)`.
pub uninterp spec fn store_contents(s: Store) -> Map<Seq<char>, (u128, u128, Seq<u8>)>;

impl Store {
    /// Relies on `DashMap::with_shard_amount`: a new, empty map. The shard
    /// count 32 is a power of two, as that constructor demands.
    #[verifier::external_body]
    pub fn new() -> (r: Store)
        ensures
            store_contents(r) =~= Map::empty(),
    {
        Store { inner: Arc::new(DashMap::with_shard_amount(NUM_SHARDS)) }
    }

    /// Relies on `Arc::clone`: a second handle to the same shared map, for
    /// another task. Nothing is known here of the new handle's contents.
    #[verifier::external_body]
    pub fn handle(&self) -> Store {
        Store { inner: Arc::clone(&self.inner) }
    }

    /// Relies on `DashMap::insert`: the entry replaces any prior entry
    /// under the key.
    #[verifier::external_body]
    pub fn insert(&mut self, key: String, item: DBItem)
        ensures
            store_contents(*final(self)) == store_contents(*old(self)).insert(key@, item@),
    {
        self.inner.insert(key, item);
    }

    /// Relies on `DashMap::get`: a snapshot of the entry under the key,
    /// if one is present.
    #[verifier::external_body]
    pub fn get(&self, key: &String) -> (r: Option<DBItem>)
        ensures
            r is Some <==> store_contents(*self).dom().contains(key@),
            r is Some ==> r.unwrap()@ == store_contents(*self)[key@],
    {
        match self.inner.get(key) {
            Some(guard) => Some(guard.value().clone()),
            None => None,
        }
    }

    /// Relies on `DashMap::contains_key`.
    #[verifier::external_body]
    pub fn contains_key(&self, key: &String) -> (r: bool)
        ensures
            r == store_contents(*self).dom().contains(key@),
    {
        self.inner.contains_key(key)
    }

    /// Relies on `DashMap::remove`: the key is absent afterwards.
    #[verifier::external_body]
    pub fn remove(&mut self, key: &String)
        ensures
            store_contents(*final(self)) == store_contents(*old(self)).remove(key@),
    {
        self.inner.remove(key);
    }

    /// Relies on `DashMap::len`: the number of stored entries.
    #[verifier::external_body]
    pub fn len(&self) -> (r: usize)
        requires
            store_contents(*self).dom().finite(),
        ensures
            r == store_contents(*self).len(),
    {
        self.inner.len()
    }

    /// Relies on `DashMap::iter`: a snapshot of all entries. The order is
    /// unspecified (it is what the sweeper's sampling relies on), so only
    /// membership is stated: every returned pair is in the map, every key
    /// of the map appears, and no key appears twice.
    #[verifier::external_body]
    pub fn entries(&self) -> (r: Vec<(String, DBItem)>)
        ensures
            forall|i: int|
                0 <= i < r@.len() ==> store_contents(*self).contains_pair(
                    (#[trigger] r@[i]).0@,
                    r@[i].1@,
                ),
            forall|k: Seq<char>|
                #[trigger] store_contents(*self).dom().contains(k) ==> exists|i: int|
                    0 <= i < r@.len() && (#[trigger] r@[i]).0@ == k,
            forall|i: int, j: int|
                0 <= i < j < r@.len() ==> (#[trigger] r@[i]).0@ != (#[trigger] r@[j]).0@,
    {
        let mut v: Vec<(String, DBItem)> = Vec::new();
        for entry in self.inner.iter() {
            v.push((entry.key().clone(), entry.value().clone()));
        }
        v
    }
}

/// A handle to the sharded concurrent table of per-key reader/writer
/// locks. Its key set mirrors the store's.
#[verifier::external_body]
pub struct LockManager {
    inner: Arc<DashMap<String, RwLock<bool>>>,
}

/// The set of keys the table a lock-manager handle addresses holds.
pub uninterp spec fn lock_keys(m: LockManager) -> Set<Seq<char>>;

impl LockManager {
    /// Relies on `DashMap::with_shard_amount`: a new, empty table. The
    /// shard count 32 is a power of two, as that constructor demands.
    #[verifier::external_body]
    pub fn new() -> (r: LockManager)
        ensures
            lock_keys(r) == Set::<Seq<char>>::empty(),
    {
        LockManager { inner: Arc::new(DashMap::with_shard_amount(NUM_SHARDS)) }
    }

    /// Relies on `Arc::clone`: a second handle to the same shared table,
    /// for another task. Nothing is known here of the new handle's keys.
    #[verifier::external_body]
    pub fn handle(&self) -> LockManager {
        LockManager { inner: Arc::clone(&self.inner) }
    }

    /// Relies on `DashMap::insert`: a fresh unlocked lock replaces any
    /// prior lock under the key.
    #[verifier::external_body]
    pub fn insert(&mut self, key: String)
        ensures
            lock_keys(*final(self)) == lock_keys(*old(self)).insert(key@),
    {
        self.inner.insert(key, RwLock::new(true));
    }

    /// Relies on `DashMap::contains_key`.
    #[verifier::external_body]
    pub fn contains_key(&self, key: &String) -> (r: bool)
        ensures
            r == lock_keys(*self).contains(key@),
    {
        self.inner.contains_key(key)
    }

    /// Relies on `DashMap::remove`: the key is absent afterwards.
    #[verifier::external_body]
    pub fn remove(&mut self, key: &String)
        ensures
            lock_keys(*final(self)) == lock_keys(*old(self)).remove(key@),
    {
        self.inner.remove(key);
    }

    /// Relies on `DashMap::get` and `RwLock::read`: takes and at once
    /// releases the key's read lock, serializing against writers. The key
    /// must be present, or the lookup's unwrap would panic.
    #[verifier::external_body]
    pub fn acquire_read(&self, key: &String)
        requires
            lock_keys(*self).contains(key@),
    {
        let entry = self.inner.get(key).unwrap();
        let _guard = entry.read();
    }

    /// Relies on `DashMap::get` and `RwLock::write`: takes and at once
    /// releases the key's write lock, serializing against all holders. The
    /// key must be present, or the lookup's unwrap would panic.
    #[verifier::external_body]
    pub fn acquire_write(&self, key: &String)
        requires
            lock_keys(*self).contains(key@),
    {
        let entry = self.inner.get(key).unwrap();
        let _guard = entry.write();
    }
}

} // verus!
