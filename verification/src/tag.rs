//! The tag overlay: file-derived metadata merged with persisted tag
//! deltas. Deltas are never baked into metadata at rest — a read always
//! re-merges the freshly read file metadata with the latest stored delta,
//! removals first, so a name both removed and set ends up set.

use vstd::prelude::*;

use crate::error::MusFuseError;
use crate::kv::{KvBackend, KvCodec, KvKey, KvNamespace, KvStore};
use crate::metadata::{
    map_of_pairs, pairs_wf, spec_canonical, TagDelta, TagDeltaV, TagValueV, TrackId, TrackIdV,
    TrackMetadata, TrackMetadataV,
};
use crate::text::{chars_to_string, push_chars, to_chars};

verus! {

/// Reads the metadata a track's source file carries. What a file yields
/// is modeled by `file_meta`; a reader may always fail instead.
pub trait TagReader {
    /// The metadata this reader attributes to the track's file, if any.
    spec fn file_meta(&self, track: TrackIdV, path: Seq<char>) -> Option<TrackMetadataV>;

    /// Reads the file-derived metadata of `track` at `path`.
    fn read_from_file(&self, track: &TrackId, path: &String) -> (r: Result<
        TrackMetadata,
        MusFuseError,
    >)
        ensures
            r matches Ok(m) ==> self.file_meta(track@, path@) == Some(m@) && pairs_wf(m@.tags),
    ;
}

/// The key a track's delta is stored under: the canonical track string
/// with `:tag` appended, in the track namespace.
pub open spec fn spec_delta_key(t: TrackIdV) -> Seq<char> {
    spec_canonical(t) + ":tag"@
}

/// Two distinct tracks never share a delta key: the key appends a fixed
/// suffix to the canonical string, which is itself injective.
pub proof fn lemma_delta_key_injective(a: TrackIdV, b: TrackIdV)
    requires
        spec_delta_key(a) == spec_delta_key(b),
    ensures
        a == b,
{
    let ca = spec_canonical(a);
    let cb = spec_canonical(b);
    assert(spec_delta_key(a).len() == ca.len() + ":tag"@.len());
    assert(spec_delta_key(b).len() == cb.len() + ":tag"@.len());
    assert(ca.len() == cb.len());
    assert forall|i: int| 0 <= i < ca.len() implies ca[i] == cb[i] by {
        assert(spec_delta_key(a)[i] == ca[i]);
        assert(spec_delta_key(b)[i] == cb[i]);
    }
    assert(ca =~= cb);
    crate::metadata::lemma_canonical_injective(a, b);
}

/// Stores one tag delta per track. `deltas` is the stored mapping; a
/// failed write leaves it unspecified.
pub trait TagPersistence {
    /// The stored delta of each track.
    spec fn deltas(&self) -> Map<TrackIdV, TagDeltaV>;

    /// Loads the stored delta of `track`, if any.
    fn load_delta(&self, track: &TrackId) -> (r: Result<Option<TagDelta>, MusFuseError>)
        ensures
            match r {
                Ok(Some(d)) => self.deltas().contains_key(track@) && self.deltas()[track@] == d@,
                Ok(None) => !self.deltas().contains_key(track@),
                Err(e) => e is Kv,
            },
    ;

    /// Stores `delta` as the delta of `track`, replacing any previous
    /// one.
    fn save_delta(&mut self, track: &TrackId, delta: &TagDelta) -> (r: Result<(), MusFuseError>)
        ensures
            match r {
                Ok(()) => final(self).deltas() == old(self).deltas().insert(track@, delta@),
                Err(e) => e is Kv,
            },
    ;

    /// Deletes the stored delta of `track`, if any.
    fn delete_delta(&mut self, track: &TrackId) -> (r: Result<(), MusFuseError>)
        ensures
            match r {
                Ok(()) => final(self).deltas() == old(self).deltas().remove(track@),
                Err(e) => e is Kv,
            },
    ;
}

/// Tag persistence over the key-value store: one entry per track in the
/// track namespace.
pub struct KvTagPersistence<B: KvBackend> {
    store: KvStore<B>,
}

impl<B: KvBackend> KvTagPersistence<B> {
    /// The store this persistence writes through.
    pub closed spec fn spec_store(&self) -> KvStore<B> {
        self.store
    }

    /// Wraps a store.
    pub fn new(store: KvStore<B>) -> (r: KvTagPersistence<B>)
        ensures
            r.spec_store() == store,
    {
        KvTagPersistence { store }
    }

    /// The key a track's delta is stored under.
    pub fn key(track: &TrackId) -> (r: KvKey)
        ensures
            r.namespace == KvNamespace::Track,
            r.key@ == spec_delta_key(track@),
    {
        let canon = track.canonical();
        let mut kc = to_chars(canon.as_str());
        proof {
            reveal_strlit(":tag");
        }
        let suffix = to_chars(":tag");
        push_chars(&mut kc, &suffix);
        KvKey::new(KvNamespace::Track, chars_to_string(&kc))
    }
}

impl<B: KvBackend> TagPersistence for KvTagPersistence<B> {
    /// A track has a delta exactly when decodable delta bytes stand under
    /// its key in the track namespace.
    open spec fn deltas(&self) -> Map<TrackIdV, TagDeltaV> {
        Map::new(
            |t: TrackIdV|
                self.spec_store().contents().contains_key(
                    (KvNamespace::Track, spec_delta_key(t)),
                ) && TagDelta::spec_decode(
                    self.spec_store().contents()[(KvNamespace::Track, spec_delta_key(t))],
                ) is Some,
            |t: TrackIdV|
                TagDelta::spec_decode(
                    self.spec_store().contents()[(KvNamespace::Track, spec_delta_key(t))],
                )->Some_0,
        )
    }

    fn load_delta(&self, track: &TrackId) -> (r: Result<Option<TagDelta>, MusFuseError>) {
        let k = Self::key(track);
        match self.store.load::<TagDelta>(&k) {
            Ok(Some(d)) => Ok(Some(d)),
            Ok(None) => Ok(None),
            Err(e) => Err(e),
        }
    }

    fn save_delta(&mut self, track: &TrackId, delta: &TagDelta) -> (r: Result<(), MusFuseError>) {
        let k = Self::key(track);
        let r = self.store.store::<TagDelta>(&k, delta);
        proof {
            if r is Ok {
                delta.lemma_round_trip();
                assert forall|t2: TrackIdV| #[trigger] final(self).deltas().contains_key(t2)
                    == old(self).deltas().insert(track@, delta@).contains_key(t2) by {
                    if spec_delta_key(t2) == spec_delta_key(track@) {
                        lemma_delta_key_injective(t2, track@);
                    }
                }
                assert forall|t2: TrackIdV| final(self).deltas().contains_key(t2) implies
                    #[trigger] final(self).deltas()[t2] == old(self).deltas().insert(
                    track@,
                    delta@,
                )[t2] by {
                    if spec_delta_key(t2) == spec_delta_key(track@) {
                        lemma_delta_key_injective(t2, track@);
                    }
                }
                assert(final(self).deltas() =~= old(self).deltas().insert(track@, delta@));
            }
        }
        r
    }

    fn delete_delta(&mut self, track: &TrackId) -> (r: Result<(), MusFuseError>) {
        let k = Self::key(track);
        let r = self.store.remove(&k);
        proof {
            if r is Ok {
                assert forall|t2: TrackIdV| #[trigger] final(self).deltas().contains_key(t2)
                    == old(self).deltas().remove(track@).contains_key(t2) by {
                    if spec_delta_key(t2) == spec_delta_key(track@) {
                        lemma_delta_key_injective(t2, track@);
                    }
                }
                assert(final(self).deltas() =~= old(self).deltas().remove(track@));
            }
        }
        r
    }
}

/// A mapping with the given names removed, in order.
pub open spec fn remove_all(m: Map<Seq<char>, TagValueV>, names: Seq<Seq<char>>) -> Map<
    Seq<char>,
    TagValueV,
>
    decreases names.len(),
{
    if names.len() == 0 {
        m
    } else {
        remove_all(m, names.drop_last()).remove(names.last())
    }
}

/// A mapping with the given pairs inserted, in order.
pub open spec fn set_all(
    m: Map<Seq<char>, TagValueV>,
    ps: Seq<(Seq<char>, TagValueV)>,
) -> Map<Seq<char>, TagValueV>
    decreases ps.len(),
{
    if ps.len() == 0 {
        m
    } else {
        set_all(m, ps.drop_last()).insert(ps.last().0, ps.last().1)
    }
}

/// What applying a delta does to a tag mapping: the removed names leave,
/// then the set pairs enter, so a name both removed and set ends up set.
pub open spec fn apply_delta_spec(m: Map<Seq<char>, TagValueV>, delta: TagDeltaV) -> Map<
    Seq<char>,
    TagValueV,
> {
    set_all(remove_all(m, delta.remove), delta.set)
}

/// Applies `delta` to the tags of `meta`: removals first, then the set
/// entries. Every other field of the metadata stays as it was.
pub fn apply_delta(meta: &mut TrackMetadata, delta: &TagDelta)
    requires
        old(meta).tags.wf(),
    ensures
        final(meta).tags.wf(),
        final(meta).tags.spec_map() == apply_delta_spec(old(meta).tags.spec_map(), delta@),
        final(meta).id == old(meta).id,
        final(meta).title == old(meta).title,
        final(meta).artist == old(meta).artist,
        final(meta).album_artist == old(meta).album_artist,
        final(meta).duration_ms == old(meta).duration_ms,
        final(meta).artwork == old(meta).artwork,
{
    let ghost m0 = old(meta).tags.spec_map();
    let ghost rv = delta@.remove;
    let mut i: usize = 0;
    while i < delta.remove.len()
        invariant
            rv == delta@.remove,
            rv.len() == delta.remove@.len(),
            i <= rv.len(),
            meta.tags.wf(),
            meta.tags.spec_map() == remove_all(m0, rv.subrange(0, i as int)),
            meta.id == old(meta).id,
            meta.title == old(meta).title,
            meta.artist == old(meta).artist,
            meta.album_artist == old(meta).album_artist,
            meta.duration_ms == old(meta).duration_ms,
            meta.artwork == old(meta).artwork,
        decreases rv.len() - i,
    {
        let name = &delta.remove[i];
        meta.tags.remove(name.as_str());
        i = i + 1;
        proof {
            let cur = rv.subrange(0, i as int);
            assert(cur.drop_last() =~= rv.subrange(0, i - 1));
            assert(cur.last() == rv[i - 1]);
        }
    }
    proof {
        assert(rv.subrange(0, rv.len() as int) =~= rv);
    }
    let ghost m1 = meta.tags.spec_map();
    let ghost sv = delta@.set;
    let mut j: usize = 0;
    while j < delta.set.0.len()
        invariant
            sv == delta@.set,
            sv.len() == delta.set.0@.len(),
            j <= sv.len(),
            meta.tags.wf(),
            m1 == remove_all(m0, delta@.remove),
            meta.tags.spec_map() == set_all(m1, sv.subrange(0, j as int)),
            meta.id == old(meta).id,
            meta.title == old(meta).title,
            meta.artist == old(meta).artist,
            meta.album_artist == old(meta).album_artist,
            meta.duration_ms == old(meta).duration_ms,
            meta.artwork == old(meta).artwork,
        decreases sv.len() - j,
    {
        let name = delta.set.0[j].0.clone();
        let value = delta.set.0[j].1.clone();
        meta.tags.insert(name, value);
        j = j + 1;
        proof {
            let cur = sv.subrange(0, j as int);
            assert(cur.drop_last() =~= sv.subrange(0, j - 1));
            assert(cur.last() == sv[j - 1]);
        }
    }
    proof {
        assert(sv.subrange(0, sv.len() as int) =~= sv);
    }
}

/// The overlay service: file-derived metadata read through a `TagReader`,
/// merged with the delta stored through a `TagPersistence`.
pub struct TagOverlay<R: TagReader, P: TagPersistence> {
    reader: R,
    persistence: P,
}

impl<R: TagReader, P: TagPersistence> TagOverlay<R, P> {
    /// The reader this overlay reads files through.
    pub closed spec fn spec_reader(&self) -> R {
        self.reader
    }

    /// The persistence this overlay stores deltas through.
    pub closed spec fn spec_persistence(&self) -> P {
        self.persistence
    }

    /// Builds an overlay from its collaborators.
    pub fn new(reader: R, persistence: P) -> (r: TagOverlay<R, P>)
        ensures
            r.spec_reader() == reader,
            r.spec_persistence() == persistence,
    {
        TagOverlay { reader, persistence }
    }

    /// Reads the presented metadata of `track`: the file-derived metadata,
    /// with the stored delta applied over it when one exists.
    pub fn read(&self, track: &TrackId, source: &String) -> (r: Result<
        TrackMetadata,
        MusFuseError,
    >)
        ensures
            r matches Ok(m) ==> {
                &&& self.spec_reader().file_meta(track@, source@) is Some
                &&& {
                    let fm = self.spec_reader().file_meta(track@, source@)->Some_0;
                    if self.spec_persistence().deltas().contains_key(track@) {
                        map_of_pairs(m@.tags) == apply_delta_spec(
                            map_of_pairs(fm.tags),
                            self.spec_persistence().deltas()[track@],
                        ) && m@.id == fm.id && m@.title == fm.title && m@.artist == fm.artist
                            && m@.album_artist == fm.album_artist && m@.duration_ms
                            == fm.duration_ms && m@.artwork == fm.artwork
                    } else {
                        m@ == fm
                    }
                }
            },
    {
        let mut metadata = match self.reader.read_from_file(track, source) {
            Ok(m) => m,
            Err(e) => {
                return Err(e);
            },
        };
        match self.persistence.load_delta(track) {
            Err(e) => Err(e),
            Ok(None) => Ok(metadata),
            Ok(Some(delta)) => {
                apply_delta(&mut metadata, &delta);
                Ok(metadata)
            },
        }
    }

    /// Applies `delta` to `track`: the merged view of the freshly read
    /// file metadata is returned, and the delta is persisted whole,
    /// replacing any previous delta for the track.
    pub fn apply(&mut self, track: &TrackId, source: &String, delta: &TagDelta) -> (r: Result<
        TrackMetadata,
        MusFuseError,
    >)
        ensures
            r matches Ok(m) ==> {
                &&& old(self).spec_reader().file_meta(track@, source@) is Some
                &&& {
                    let fm = old(self).spec_reader().file_meta(track@, source@)->Some_0;
                    map_of_pairs(m@.tags) == apply_delta_spec(map_of_pairs(fm.tags), delta@)
                        && m@.id == fm.id && m@.title == fm.title && m@.artist == fm.artist
                        && m@.album_artist == fm.album_artist && m@.duration_ms == fm.duration_ms
                        && m@.artwork == fm.artwork
                }
                &&& final(self).spec_persistence().deltas() == old(
                    self,
                ).spec_persistence().deltas().insert(track@, delta@)
            },
            final(self).spec_reader() == old(self).spec_reader(),
    {
        let mut merged = match self.reader.read_from_file(track, source) {
            Ok(m) => m,
            Err(e) => {
                return Err(e);
            },
        };
        apply_delta(&mut merged, delta);
        match self.persistence.save_delta(track, delta) {
            Err(e) => Err(e),
            Ok(()) => Ok(merged),
        }
    }

    /// Forgets the stored delta of `track`; the source file is never
    /// touched.
    pub fn remove(&mut self, track: &TrackId) -> (r: Result<(), MusFuseError>)
        ensures
            r is Ok ==> final(self).spec_persistence().deltas() == old(
                self,
            ).spec_persistence().deltas().remove(track@),
            final(self).spec_reader() == old(self).spec_reader(),
    {
        self.persistence.delete_delta(track)
    }
}

/// Applying a delta and reading the result back reflects the delta: every
/// name it sets reads as the set value, and every name it removes without
/// also setting is absent — whatever the file-derived tags were. The set
/// names are required to be distinct, as a well-formed delta has them.
pub proof fn lemma_overlay_round_trip(m: Map<Seq<char>, TagValueV>, delta: TagDeltaV)
    requires
        pairs_wf(delta.set),
    ensures
        forall|j: int|
            0 <= j < delta.set.len() ==> apply_delta_spec(m, delta).contains_key(
                (#[trigger] delta.set[j]).0,
            ) && apply_delta_spec(m, delta)[delta.set[j].0] == delta.set[j].1,
        forall|k: Seq<char>|
            delta.remove.contains(k) && (forall|j: int|
                0 <= j < delta.set.len() ==> (#[trigger] delta.set[j]).0 != k) ==> !apply_delta_spec(
                m,
                delta,
            ).contains_key(k),
{
    let base = remove_all(m, delta.remove);
    assert forall|j: int| 0 <= j < delta.set.len() implies apply_delta_spec(m, delta).contains_key(
        (#[trigger] delta.set[j]).0,
    ) && apply_delta_spec(m, delta)[delta.set[j].0] == delta.set[j].1 by {
        lemma_set_all_last(base, delta.set, j);
    }
    assert forall|k: Seq<char>|
        delta.remove.contains(k) && (forall|j: int|
            0 <= j < delta.set.len() ==> (#[trigger] delta.set[j]).0 != k) implies !apply_delta_spec(
        m,
        delta,
    ).contains_key(k) by {
        lemma_remove_all_gone(m, delta.remove, k);
        lemma_set_all_other(base, delta.set, k);
    }
}

/// After inserting distinct-keyed pairs in order, each pair's name maps to
/// its value.
proof fn lemma_set_all_last(m: Map<Seq<char>, TagValueV>, ps: Seq<(Seq<char>, TagValueV)>, j: int)
    requires
        pairs_wf(ps),
        0 <= j < ps.len(),
    ensures
        set_all(m, ps).contains_key(ps[j].0),
        set_all(m, ps)[ps[j].0] == ps[j].1,
    decreases ps.len(),
{
    if j == ps.len() - 1 {
        assert(ps.last() == ps[j]);
    } else {
        assert(ps.drop_last()[j] == ps[j]);
        lemma_set_all_last(m, ps.drop_last(), j);
        assert(ps.last() == ps[ps.len() - 1]);
        assert(ps[ps.len() - 1].0 != ps[j].0);
    }
}

/// Inserting pairs never touches a name none of them carries.
proof fn lemma_set_all_other(m: Map<Seq<char>, TagValueV>, ps: Seq<(Seq<char>, TagValueV)>, k: Seq<char>)
    requires
        forall|j: int| 0 <= j < ps.len() ==> (#[trigger] ps[j]).0 != k,
    ensures
        set_all(m, ps).contains_key(k) == m.contains_key(k),
        m.contains_key(k) ==> set_all(m, ps)[k] == m[k],
    decreases ps.len(),
{
    if ps.len() > 0 {
        assert(forall|j: int|
            0 <= j < ps.drop_last().len() ==> (#[trigger] ps.drop_last()[j]).0 != k);
        lemma_set_all_other(m, ps.drop_last(), k);
        assert(ps.last() == ps[ps.len() - 1]);
    }
}

/// Removing names removes them.
proof fn lemma_remove_all_gone(m: Map<Seq<char>, TagValueV>, names: Seq<Seq<char>>, k: Seq<char>)
    requires
        names.contains(k),
    ensures
        !remove_all(m, names).contains_key(k),
    decreases names.len(),
{
    if names.len() > 0 {
        if names.last() == k {
        } else {
            assert(names.drop_last().contains(k)) by {
                let w = choose|w: int| 0 <= w < names.len() && names[w] == k;
                assert(names.drop_last()[w] == k);
            }
            lemma_remove_all_gone(m, names.drop_last(), k);
        }
    }
}

} // verus!
