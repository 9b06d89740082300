//! The embedded, ordered, crash-consistent backend: a sled database with
//! one sled tree per namespace. The tree handles are memoized behind a
//! lock, so a namespace's keyspace is opened once and reused.
//!
//! The sled calls stand behind trusted wrappers. Their contracts rely on
//! sled's documented behaviour — `get` sees what `insert` put under the
//! same key, `scan_prefix` walks exactly the keys with the prefix, each
//! once — and on the keyspaces holding only keys this backend wrote,
//! which are UTF-8; a scan that meets a foreign non-text key reports a
//! `Kv` error instead of inventing a reading for it.

use vstd::prelude::*;

use crate::error::MusFuseError;
use crate::kv::{KvBackend, KvKey, KvNamespace};

verus! {

#[verifier::external_type_specification]
#[verifier::external_body]
pub struct ExSledDb(sled::Db);

#[verifier::external_type_specification]
#[verifier::external_body]
pub struct ExSledTree(sled::Tree);

/// The sled-backed implementation of `KvBackend`. The database handle and
/// the namespace-to-tree cache live behind this opaque struct; everything
/// Verus knows of it is `sled_contents`.
#[verifier::external_body]
pub struct SledBackend {
    db: sled::Db,
    cache: std::sync::Mutex<Vec<(KvNamespace, sled::Tree)>>,
}

/// What the sled database holds, per namespace and key.
pub uninterp spec fn sled_contents(b: SledBackend) -> Map<(KvNamespace, Seq<char>), Seq<u8>>;

impl SledBackend {
    /// Relies on `sled::open`: it opens or creates the database at the
    /// given path. Nothing is assumed of what the database already holds.
    #[verifier::external_body]
    pub fn open(path: &str) -> (r: Result<SledBackend, MusFuseError>)
        ensures
            r matches Err(e) ==> e is Kv,
    {
        match sled::open(path) {
            Ok(db) => Ok(SledBackend { db, cache: std::sync::Mutex::new(Vec::new()) }),
            Err(e) => Err(MusFuseError::Kv(format!("unable to open sled db: {e}"))),
        }
    }

    /// Relies on `sled::Db`: an already opened database is wrapped as a
    /// backend. Nothing is assumed of what it holds.
    #[verifier::external_body]
    pub fn from_db(db: sled::Db) -> (r: SledBackend) {
        SledBackend { db, cache: std::sync::Mutex::new(Vec::new()) }
    }

    /// Relies on `sled::Db::open_tree`: it opens or creates the keyspace
    /// of the given name; an open handle is reused from the cache.
    #[verifier::external_body]
    fn tree(&self, ns: KvNamespace) -> (r: Result<sled::Tree, MusFuseError>) {
        let mut cache = self.cache.lock().unwrap_or_else(|e| e.into_inner());
        for (n, t) in cache.iter() {
            if *n == ns {
                return Ok(t.clone());
            }
        }
        let name = ns.name();
        match self.db.open_tree(name.as_bytes()) {
            Ok(t) => {
                cache.push((ns, t.clone()));
                Ok(t)
            },
            Err(e) => Err(MusFuseError::Kv(e.to_string())),
        }
    }
}

impl SledBackend {
    /// Relies on `sled::Tree::get`: it returns the value most recently
    /// inserted under the key, or nothing.
    #[verifier::external_body]
    fn get_raw(&self, key: &KvKey) -> (r: Result<Option<Vec<u8>>, MusFuseError>)
        ensures
            match r {
                Ok(Some(v)) => sled_contents(*self).contains_key((key.namespace, key.key@))
                    && sled_contents(*self)[(key.namespace, key.key@)] == v@,
                Ok(None) => !sled_contents(*self).contains_key((key.namespace, key.key@)),
                Err(e) => e is Kv,
            },
    {
        let tree = self.tree(key.namespace)?;
        match tree.get(key.key.as_bytes()) {
            Ok(opt) => Ok(opt.map(|iv| iv.as_ref().to_vec())),
            Err(e) => Err(MusFuseError::Kv(e.to_string())),
        }
    }

    /// Relies on `sled::Tree::insert`: it stores the value under the key,
    /// replacing any previous value.
    #[verifier::external_body]
    fn put_raw(&mut self, key: &KvKey, value: Vec<u8>) -> (r: Result<(), MusFuseError>)
        ensures
            match r {
                Ok(()) => sled_contents(*final(self)) == sled_contents(*old(self)).insert(
                    (key.namespace, key.key@),
                    value@,
                ),
                Err(e) => e is Kv,
            },
    {
        let tree = self.tree(key.namespace)?;
        match tree.insert(key.key.as_bytes(), value) {
            Ok(_) => Ok(()),
            Err(e) => Err(MusFuseError::Kv(e.to_string())),
        }
    }

    /// Relies on `sled::Tree::remove`: it removes the value under the
    /// key, if any.
    #[verifier::external_body]
    fn delete_raw(&mut self, key: &KvKey) -> (r: Result<(), MusFuseError>)
        ensures
            match r {
                Ok(()) => sled_contents(*final(self)) == sled_contents(*old(self)).remove(
                    (key.namespace, key.key@),
                ),
                Err(e) => e is Kv,
            },
    {
        let tree = self.tree(key.namespace)?;
        match tree.remove(key.key.as_bytes()) {
            Ok(_) => Ok(()),
            Err(e) => Err(MusFuseError::Kv(e.to_string())),
        }
    }

    /// Relies on `sled::Tree::scan_prefix`: it walks exactly the keys
    /// starting with the prefix, each once, in order, with their values.
    #[verifier::external_body]
    fn scan_prefix_raw(&self, namespace: KvNamespace, prefix: &String) -> (r: Result<
        Vec<(String, Vec<u8>)>,
        MusFuseError,
    >)
        ensures
            match r {
                Ok(items) => {
                    &&& forall|i: int|
                        0 <= i < items@.len() ==> crate::text::has_prefix(
                            (#[trigger] items@[i]).0@,
                            prefix@,
                        ) && sled_contents(*self).contains_key((namespace, items@[i].0@))
                            && sled_contents(*self)[(namespace, items@[i].0@)] == items@[i].1@
                    &&& forall|k: Seq<char>|
                        #[trigger] sled_contents(*self).contains_key((namespace, k))
                            && crate::text::has_prefix(k, prefix@) ==> exists|i: int|
                            0 <= i < items@.len() && (#[trigger] items@[i]).0@ == k
                    &&& forall|i: int, j: int|
                        0 <= i < j < items@.len() ==> (#[trigger] items@[i]).0@ != (
                        #[trigger] items@[j]).0@
                },
                Err(e) => e is Kv,
            },
    {
        let tree = self.tree(namespace)?;
        let mut out: Vec<(String, Vec<u8>)> = Vec::new();
        for item in tree.scan_prefix(prefix.as_bytes()) {
            let (k, v) = item.map_err(|e| MusFuseError::Kv(e.to_string()))?;
            match String::from_utf8(k.as_ref().to_vec()) {
                Ok(ks) => out.push((ks, v.as_ref().to_vec())),
                Err(_) => {
                    return Err(MusFuseError::Kv(String::from("non-text key in keyspace")));
                },
            }
        }
        Ok(out)
    }
}

impl KvBackend for SledBackend {
    open spec fn contents(&self) -> Map<(KvNamespace, Seq<char>), Seq<u8>> {
        sled_contents(*self)
    }

    fn get(&self, key: &KvKey) -> (r: Result<Option<Vec<u8>>, MusFuseError>) {
        self.get_raw(key)
    }

    fn put(&mut self, key: &KvKey, value: Vec<u8>) -> (r: Result<(), MusFuseError>) {
        self.put_raw(key, value)
    }

    fn delete(&mut self, key: &KvKey) -> (r: Result<(), MusFuseError>) {
        self.delete_raw(key)
    }

    fn scan_prefix(&self, namespace: KvNamespace, prefix: &String) -> (r: Result<
        Vec<(String, Vec<u8>)>,
        MusFuseError,
    >) {
        self.scan_prefix_raw(namespace, prefix)
    }
}

} // verus!
