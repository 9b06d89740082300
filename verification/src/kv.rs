//! Namespaced key-value storage: the key model, the backend abstraction,
//! the value codec abstraction, and the typed store layered on both.
//!
//! Values are carried by the crate's own structured, length-prefixed
//! encoding rather than an off-the-shelf serializer: a codec of the
//! crate's own is what lets the store's round-trip law be proved instead
//! of assumed.

use vstd::prelude::*;

use crate::error::MusFuseError;
use crate::text::{chars_to_string, has_prefix, push_chars, to_chars};

verus! {

/// The closed set of keyspaces. Each namespace maps to an isolated
/// keyspace in the backend, so prefix scans never cross domains.
#[derive(Debug, Clone, Copy, PartialEq, Eq, Hash, Structural)]
pub enum KvNamespace {
    Track,
    Album,
    Artwork,
    Cue,
    FileStat,
    Cache,
    Policy,
}

/// The name a namespace's keyspace is created under.
pub open spec fn namespace_name(ns: KvNamespace) -> Seq<char> {
    match ns {
        KvNamespace::Track => "track"@,
        KvNamespace::Album => "album"@,
        KvNamespace::Artwork => "artwork"@,
        KvNamespace::Cue => "cue"@,
        KvNamespace::FileStat => "file"@,
        KvNamespace::Cache => "cache"@,
        KvNamespace::Policy => "policy"@,
    }
}

impl KvNamespace {
    /// Writes the keyspace name of this namespace.
    pub fn name(&self) -> (r: String)
        ensures
            r@ == namespace_name(*self),
    {
        match self {
            KvNamespace::Track => String::from_str("track"),
            KvNamespace::Album => String::from_str("album"),
            KvNamespace::Artwork => String::from_str("artwork"),
            KvNamespace::Cue => String::from_str("cue"),
            KvNamespace::FileStat => String::from_str("file"),
            KvNamespace::Cache => String::from_str("cache"),
            KvNamespace::Policy => String::from_str("policy"),
        }
    }
}

/// A fully qualified key: a namespace and a key string inside it.
#[derive(Debug, Clone, PartialEq, Eq, Hash)]
pub struct KvKey {
    pub namespace: KvNamespace,
    pub key: String,
}

impl KvKey {
    /// Builds a key from its parts.
    pub fn new(namespace: KvNamespace, key: String) -> (r: KvKey)
        ensures
            r.namespace == namespace,
            r.key@ == key@,
    {
        KvKey { namespace, key }
    }

    /// Writes the key with its namespace as a prefix, separated by a
    /// colon.
    pub fn as_str(&self) -> (r: String)
        ensures
            r@ == namespace_name(self.namespace) + ":"@ + self.key@,
    {
        let name = self.namespace.name();
        let mut out = to_chars(name.as_str());
        proof {
            reveal_strlit(":");
        }
        let colon = to_chars(":");
        push_chars(&mut out, &colon);
        let kc = to_chars(self.key.as_str());
        push_chars(&mut out, &kc);
        proof {
            assert(out@ =~= namespace_name(self.namespace) + ":"@ + self.key@);
        }
        chars_to_string(&out)
    }
}

/// What a backend holds: for each namespace and key, the stored bytes.
/// `get` after a successful `put` of the same key sees the put bytes;
/// `scan_prefix` returns exactly the keys of the namespace carrying the
/// prefix, each once, with its bytes. A failing call reports a `Kv` error,
/// and a failed `put` or `delete` leaves the contents unspecified.
pub trait KvBackend: Sized {
    /// The bytes currently stored, per namespace and key.
    spec fn contents(&self) -> Map<(KvNamespace, Seq<char>), Seq<u8>>;

    /// Reads the bytes under a key.
    fn get(&self, key: &KvKey) -> (r: Result<Option<Vec<u8>>, MusFuseError>)
        ensures
            match r {
                Ok(Some(v)) => self.contents().contains_key((key.namespace, key.key@))
                    && self.contents()[(key.namespace, key.key@)] == v@,
                Ok(None) => !self.contents().contains_key((key.namespace, key.key@)),
                Err(e) => e is Kv,
            },
    ;

    /// Stores bytes under a key, replacing any previous bytes.
    fn put(&mut self, key: &KvKey, value: Vec<u8>) -> (r: Result<(), MusFuseError>)
        ensures
            match r {
                Ok(()) => final(self).contents() == old(self).contents().insert(
                    (key.namespace, key.key@),
                    value@,
                ),
                Err(e) => e is Kv,
            },
    ;

    /// Deletes the bytes under a key, if any.
    fn delete(&mut self, key: &KvKey) -> (r: Result<(), MusFuseError>)
        ensures
            match r {
                Ok(()) => final(self).contents() == old(self).contents().remove(
                    (key.namespace, key.key@),
                ),
                Err(e) => e is Kv,
            },
    ;

    /// Lists every key of `namespace` that starts with `prefix`, each
    /// exactly once, with its bytes.
    fn scan_prefix(&self, namespace: KvNamespace, prefix: &String) -> (r: Result<
        Vec<(String, Vec<u8>)>,
        MusFuseError,
    >)
        ensures
            match r {
                Ok(items) => {
                    &&& forall|i: int|
                        0 <= i < items@.len() ==> has_prefix((#[trigger] items@[i]).0@, prefix@)
                            && self.contents().contains_key((namespace, items@[i].0@))
                            && self.contents()[(namespace, items@[i].0@)] == items@[i].1@
                    &&& forall|k: Seq<char>|
                        #[trigger] self.contents().contains_key((namespace, k)) && has_prefix(
                            k,
                            prefix@,
                        ) ==> exists|i: int| 0 <= i < items@.len() && (#[trigger] items@[i]).0@ == k
                    &&& forall|i: int, j: int|
                        0 <= i < j < items@.len() ==> (#[trigger] items@[i]).0@ != (
                        #[trigger] items@[j]).0@
                },
                Err(e) => e is Kv,
            },
    ;
}

/// How a value type is carried as bytes. `spec_encode` is the bytes a
/// value is stored as; `spec_decode` reads them back as the value's
/// mathematical form, and every encoding decodes to the value it came
/// from.
pub trait KvCodec: View + Sized {
    /// The bytes this value is stored as.
    spec fn spec_encode(&self) -> Seq<u8>;

    /// The value the given bytes denote, if they are a valid encoding.
    spec fn spec_decode(bytes: Seq<u8>) -> Option<Self::V>;

    /// Every value's encoding decodes back to the value.
    proof fn lemma_round_trip(&self)
        ensures
            Self::spec_decode(self.spec_encode()) == Some(self@),
    ;

    /// Writes this value as bytes.
    fn encode(&self) -> (r: Vec<u8>)
        ensures
            r@ == self.spec_encode(),
    ;

    /// Reads a value back from bytes.
    fn decode(bytes: &Vec<u8>) -> (r: Option<Self>)
        ensures
            match r {
                Some(v) => Self::spec_decode(bytes@) == Some(v@),
                None => Self::spec_decode(bytes@) is None,
            },
    ;
}

/// A typed key-value store over a backend: values pass through their codec
/// on the way in and out, and codec failures surface as a distinct error
/// from backend failures.
pub struct KvStore<B: KvBackend> {
    backend: B,
}

impl<B: KvBackend> KvStore<B> {
    /// The backend this store wraps.
    pub closed spec fn spec_backend(&self) -> B {
        self.backend
    }

    /// Wraps a backend.
    pub fn new(backend: B) -> (r: KvStore<B>)
        ensures
            r.spec_backend() == backend,
    {
        KvStore { backend }
    }

    /// The wrapped backend.
    pub fn backend(&self) -> (r: &B)
        ensures
            *r == self.spec_backend(),
    {
        &self.backend
    }

    /// What the store holds, per namespace and key.
    pub open spec fn contents(&self) -> Map<(KvNamespace, Seq<char>), Seq<u8>> {
        self.spec_backend().contents()
    }

    /// Loads and decodes the value under `key`: `Ok(None)` when the key is
    /// absent, the decoded value when its bytes are a valid encoding, and
    /// a `Kv` error when the bytes are not or the backend fails.
    pub fn load<T: KvCodec>(&self, key: &KvKey) -> (r: Result<Option<T>, MusFuseError>)
        ensures
            match r {
                Ok(Some(v)) => self.contents().contains_key((key.namespace, key.key@))
                    && T::spec_decode(self.contents()[(key.namespace, key.key@)]) == Some(v@),
                Ok(None) => !self.contents().contains_key((key.namespace, key.key@)),
                Err(e) => e is Kv,
            },
    {
        match self.backend.get(key) {
            Err(e) => Err(e),
            Ok(None) => Ok(None),
            Ok(Some(bytes)) => match T::decode(&bytes) {
                Some(v) => Ok(Some(v)),
                None => Err(
                    MusFuseError::Kv(String::from_str("stored bytes do not decode as requested")),
                ),
            },
        }
    }

    /// Encodes `value` and stores it under `key`, replacing any previous
    /// value.
    pub fn store<T: KvCodec>(&mut self, key: &KvKey, value: &T) -> (r: Result<(), MusFuseError>)
        ensures
            match r {
                Ok(()) => final(self).contents() == old(self).contents().insert(
                    (key.namespace, key.key@),
                    value.spec_encode(),
                ),
                Err(e) => e is Kv,
            },
    {
        let bytes = value.encode();
        self.backend.put(key, bytes)
    }

    /// Removes the value under `key`, if any.
    pub fn remove(&mut self, key: &KvKey) -> (r: Result<(), MusFuseError>)
        ensures
            match r {
                Ok(()) => final(self).contents() == old(self).contents().remove(
                    (key.namespace, key.key@),
                ),
                Err(e) => e is Kv,
            },
    {
        self.backend.delete(key)
    }
}

/// A prefix scan returns exactly one item per stored matching key: where
/// the scanned items carry the matching keys each once (as the backend
/// contract provides), their number equals the number of stored keys of
/// the namespace sharing the prefix, whatever order they were stored in.
pub proof fn lemma_scan_prefix_count(
    m: Map<(KvNamespace, Seq<char>), Seq<u8>>,
    ns: KvNamespace,
    prefix: Seq<char>,
    keys: Seq<Seq<char>>,
)
    requires
        forall|i: int|
            0 <= i < keys.len() ==> has_prefix(#[trigger] keys[i], prefix) && m.contains_key(
                (ns, keys[i]),
            ),
        forall|k: Seq<char>|
            m.contains_key((ns, k)) && has_prefix(k, prefix) ==> keys.contains(k),
        forall|i: int, j: int| 0 <= i < j < keys.len() ==> keys[i] != keys[j],
    ensures
        keys.len() == Set::new(
            |k: Seq<char>| m.contains_key((ns, k)) && has_prefix(k, prefix),
        ).len(),
{
    let s = Set::new(|k: Seq<char>| m.contains_key((ns, k)) && has_prefix(k, prefix));
    keys.unique_seq_to_set();
    assert forall|k: Seq<char>| #[trigger] s.contains(k) implies keys.to_set().contains(k) by {
        assert(keys.contains(k));
    }
    assert forall|k: Seq<char>| #[trigger] keys.to_set().contains(k) implies s.contains(k) by {
        let i = choose|i: int| 0 <= i < keys.len() && keys[i] == k;
        assert(has_prefix(keys[i], prefix));
    }
    assert(keys.to_set() =~= s);
}

/// Storing then loading returns the stored value: the bytes a store puts
/// under a key decode back to the stored value, whatever the backend held
/// before.
pub proof fn lemma_store_load_round_trip<T: KvCodec>(
    m: Map<(KvNamespace, Seq<char>), Seq<u8>>,
    ns: KvNamespace,
    k: Seq<char>,
    v: &T,
)
    ensures
        T::spec_decode(m.insert((ns, k), v.spec_encode())[(ns, k)]) == Some(v@),
{
    v.lemma_round_trip();
}

} // verus!
