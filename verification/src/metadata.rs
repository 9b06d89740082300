//! Identifiers, tag data and track metadata.

use vstd::prelude::*;

use crate::text::{chars_to_string, dec_pad2, eq_chars, push_chars, to_chars, u64_to_dec_pad2};

verus! {

broadcast use vstd::std_specs::vec::group_vec_axioms, vstd::seq::axiom_seq_index_decreases;

/// Opaque identifier of an album or source grouping.
#[derive(Debug, PartialEq, Eq, Hash, PartialOrd, Ord)]
pub struct AlbumId(pub String);

impl Clone for AlbumId {
    /// A clone carries the same identifier text.
    fn clone(&self) -> (r: Self)
        ensures
            r@ == self@,
    {
        AlbumId(self.0.clone())
    }
}

impl View for AlbumId {
    type V = Seq<char>;

    open spec fn view(&self) -> Seq<char> {
        self.0@
    }
}

/// Identifier of one logical track: album, disc number, track index.
#[derive(Debug, PartialEq, Eq, Hash, PartialOrd, Ord)]
pub struct TrackId {
    pub album: AlbumId,
    pub disc: u8,
    pub index: u32,
}

impl Clone for TrackId {
    /// A clone carries the same identifier.
    fn clone(&self) -> (r: Self)
        ensures
            r@ == self@,
    {
        TrackId { album: self.album.clone(), disc: self.disc, index: self.index }
    }
}

/// The mathematical value of a `TrackId`.
pub struct TrackIdV {
    pub album: Seq<char>,
    pub disc: u8,
    pub index: u32,
}

impl View for TrackId {
    type V = TrackIdV;

    open spec fn view(&self) -> TrackIdV {
        TrackIdV { album: self.album@, disc: self.disc, index: self.index }
    }
}

/// The canonical string form of a track identifier: the album, the disc
/// and the index, the numbers zero-padded to two digits, joined by
/// hyphens. It serves as virtual filename stem and key fragment alike.
pub open spec fn spec_canonical(id: TrackIdV) -> Seq<char> {
    id.album + "-"@ + dec_pad2(id.disc as nat) + "-"@ + dec_pad2(id.index as nat)
}

impl TrackId {
    /// Writes this identifier in its canonical string form.
    pub fn canonical(&self) -> (r: String)
        ensures
            r@ == spec_canonical(self@),
    {
        let mut out = to_chars(self.album.0.as_str());
        proof {
            reveal_strlit("-");
        }
        let dash = to_chars("-");
        push_chars(&mut out, &dash);
        let disc = u64_to_dec_pad2(self.disc as u64);
        push_chars(&mut out, &disc);
        push_chars(&mut out, &dash);
        let index = u64_to_dec_pad2(self.index as u64);
        push_chars(&mut out, &index);
        proof {
            assert(out@ =~= spec_canonical(self@));
        }
        chars_to_string(&out)
    }
}

/// One tag value: a small closed set of variants, not open-ended dynamic
/// typing. A floating-point tag is carried as the bit pattern of its IEEE 754
/// double, so that the value survives a round trip without the library
/// holding a float itself.
#[derive(Debug, PartialEq)]
pub enum TagValue {
    Text(String),
    Number(i64),
    FloatBits(u64),
    Bool(bool),
    List(Vec<TagValue>),
}

/// The mathematical value of a `TagValue`: strings as character sequences,
/// lists as sequences.
pub enum TagValueV {
    Text(Seq<char>),
    Number(i64),
    FloatBits(u64),
    Bool(bool),
    List(Seq<TagValueV>),
}

/// The view of one tag value.
pub open spec fn tag_value_view(v: TagValue) -> TagValueV
    decreases v,
    via tag_value_view_decreases
{
    match v {
        TagValue::Text(s) => TagValueV::Text(s@),
        TagValue::Number(n) => TagValueV::Number(n),
        TagValue::FloatBits(b) => TagValueV::FloatBits(b),
        TagValue::Bool(b) => TagValueV::Bool(b),
        TagValue::List(l) => TagValueV::List(tag_values_view(l@)),
    }
}

/// The views of a sequence of tag values, element by element.
pub open spec fn tag_values_view(s: Seq<TagValue>) -> Seq<TagValueV>
    decreases s,
    via tag_values_view_decreases
{
    if s.len() == 0 {
        Seq::empty()
    } else {
        tag_values_view(s.drop_last()).push(tag_value_view(s.last()))
    }
}

/// `tag_values_view` is the element-by-element view: it keeps the length and
/// views each element.
pub proof fn lemma_tag_values_view(s: Seq<TagValue>)
    ensures
        tag_values_view(s).len() == s.len(),
        forall|i: int| 0 <= i < s.len() ==> tag_values_view(s)[i] == tag_value_view(s[i]),
    decreases s.len(),
{
    if s.len() > 0 {
        lemma_tag_values_view(s.drop_last());
    }
}

#[via_fn]
proof fn tag_value_view_decreases(v: TagValue) {
    match v {
        TagValue::List(l) => {
            assert(decreases_to!(v => l));
            assert(decreases_to!(l => l@));
        },
        _ => {},
    }
}

#[via_fn]
proof fn tag_values_view_decreases(s: Seq<TagValue>) {
    if s.len() > 0 {
        assert(decreases_to!(s => s.last()));
        assert(s.drop_last() =~= s.subrange(0, s.len() - 1));
        vstd::seq::axiom_seq_subrange_decreases(s, 0, s.len() - 1);
        assert(decreases_to!(s => s.drop_last()));
    }
}

impl View for TagValue {
    type V = TagValueV;

    open spec fn view(&self) -> TagValueV {
        tag_value_view(*self)
    }
}

impl Clone for TagValue {
    /// A clone carries the same mathematical value.
    fn clone(&self) -> (r: Self)
        ensures
            r@ == self@,
        decreases *self,
    {
        match self {
            TagValue::Text(s) => TagValue::Text(s.clone()),
            TagValue::Number(n) => TagValue::Number(*n),
            TagValue::FloatBits(b) => TagValue::FloatBits(*b),
            TagValue::Bool(b) => TagValue::Bool(*b),
            TagValue::List(l) => {
                let mut out: Vec<TagValue> = Vec::new();
                let mut i: usize = 0;
                while i < l.len()
                    invariant
                        *self == TagValue::List(*l),
                        i <= l@.len(),
                        out@.len() == i as int,
                        forall|j: int| 0 <= j < i as int ==> out@[j]@ == l@[j]@,
                    decreases l@.len() - i,
                {
                    proof {
                        assert(decreases_to!((*self)->List_0 => l@));
                        assert(decreases_to!(l@ => l@[i as int]));
                    }
                    let c = l[i].clone();
                    out.push(c);
                    i = i + 1;
                }
                let res = TagValue::List(out);
                proof {
                    lemma_tag_values_view(out@);
                    lemma_tag_values_view(l@);
                    assert(tag_values_view(out@) =~= tag_values_view(l@));
                }
                res
            },
        }
    }
}

/// An ordered mapping from tag names to tag values, keyed by name.
#[derive(Debug, PartialEq)]
pub struct TagMap(pub Vec<(String, TagValue)>);

/// Each name occurs at most once among the pairs.
pub open spec fn pairs_wf(ps: Seq<(Seq<char>, TagValueV)>) -> bool {
    forall|i: int, j: int|
        0 <= i < j < ps.len() ==> (#[trigger] ps[i]).0 != (#[trigger] ps[j]).0
}

/// The mapping a sequence of pairs denotes.
pub open spec fn map_of_pairs(ps: Seq<(Seq<char>, TagValueV)>) -> Map<Seq<char>, TagValueV> {
    Map::new(
        |k: Seq<char>| exists|i: int| 0 <= i < ps.len() && (#[trigger] ps[i]).0 == k,
        |k: Seq<char>| ps[choose|i: int| 0 <= i < ps.len() && (#[trigger] ps[i]).0 == k].1,
    )
}

impl TagMap {
    /// The entries as (name, value) pairs, in order.
    pub open spec fn pairs(self) -> Seq<(Seq<char>, TagValueV)> {
        Seq::new(self.0@.len(), |i: int| (self.0@[i].0@, self.0@[i].1@))
    }

    /// Each name occurs at most once.
    pub open spec fn wf(self) -> bool {
        pairs_wf(self.pairs())
    }

    /// The mapping the entries denote.
    pub open spec fn spec_map(self) -> Map<Seq<char>, TagValueV> {
        map_of_pairs(self.pairs())
    }

    /// An empty mapping.
    pub fn new() -> (r: TagMap)
        ensures
            r.pairs() =~= Seq::<(Seq<char>, TagValueV)>::empty(),
            r.wf(),
            r.spec_map() =~= Map::<Seq<char>, TagValueV>::empty(),
    {
        let r = TagMap(Vec::new());
        proof {
            assert(r.spec_map() =~= Map::<Seq<char>, TagValueV>::empty());
        }
        r
    }

    /// The value stored under `key`, if any.
    pub fn get(&self, key: &str) -> (r: Option<&TagValue>)
        requires
            self.wf(),
        ensures
            match r {
                Some(v) => self.spec_map().contains_key(key@) && self.spec_map()[key@] == v@,
                None => !self.spec_map().contains_key(key@),
            },
    {
        let kc = to_chars(key);
        let n = self.0.len();
        let mut i: usize = 0;
        while i < n
            invariant
                self.wf(),
                n == self.0@.len(),
                i <= n,
                kc@ == key@,
                forall|j: int| 0 <= j < i as int ==> (#[trigger] self.pairs()[j]).0 != key@,
            decreases n - i,
        {
            let ec = to_chars(self.0[i].0.as_str());
            if eq_chars(&ec, &kc) {
                proof {
                    assert(self.pairs()[i as int].0 == key@);
                    let w = choose|w: int|
                        0 <= w < self.pairs().len() && (#[trigger] self.pairs()[w]).0 == key@;
                    if w != i as int {
                        assert(self.pairs()[w].0 == self.pairs()[i as int].0);
                    }
                }
                return Some(&self.0[i].1);
            }
            i = i + 1;
        }
        proof {
            assert(!self.spec_map().contains_key(key@));
        }
        None
    }

    /// Stores `value` under `key`, replacing any previous value.
    pub fn insert(&mut self, key: String, value: TagValue)
        requires
            old(self).wf(),
        ensures
            final(self).wf(),
            final(self).spec_map() == old(self).spec_map().insert(key@, value@),
    {
        let kc = to_chars(key.as_str());
        let n = self.0.len();
        proof {
            assert(self.pairs() =~= old(self).pairs());
        }
        let mut i: usize = 0;
        while i < n
            invariant
                old(self).wf(),
                n == self.0@.len(),
                i <= n,
                kc@ == key@,
                self.0@ == old(self).0@,
                self.pairs() == old(self).pairs(),
                forall|j: int| 0 <= j < i as int ==> (#[trigger] self.pairs()[j]).0 != key@,
            decreases n - i,
        {
            let ec = to_chars(self.0[i].0.as_str());
            if eq_chars(&ec, &kc) {
                let ghost oldpairs = self.pairs();
                let entry = vstd::std_specs::vec::vec_index_mut(&mut self.0, i);
                entry.1 = value;
                proof {
                    assert(self.pairs() =~= oldpairs.update(i as int, (key@, value@)));
                    lemma_map_update(oldpairs, self.pairs(), i as int, key@, value@);
                    lemma_tag_map_lookup(*old(self));
                    lemma_tag_map_lookup(*self);
                    let newp = self.pairs();
                    let target = old(self).spec_map().insert(key@, value@);
                    assert forall|k: Seq<char>| #[trigger] self.spec_map().contains_key(
                        k,
                    ) implies target.contains_key(k) by {
                        let j = choose|j: int|
                            0 <= j < newp.len() && (#[trigger] newp[j]).0 == k;
                        if k != key@ {
                            assert(oldpairs[j].0 == k);
                            assert(old(self).spec_map().contains_key(oldpairs[j].0));
                        }
                    }
                    assert forall|k: Seq<char>| #[trigger] target.contains_key(
                        k,
                    ) implies self.spec_map().contains_key(k) by {
                        if k == key@ {
                            assert(newp[i as int].0 == k);
                            assert(self.spec_map().contains_key(newp[i as int].0));
                        } else {
                            let j = choose|j: int|
                                0 <= j < oldpairs.len() && (#[trigger] oldpairs[j]).0 == k;
                            assert(newp[j].0 == k);
                            assert(self.spec_map().contains_key(newp[j].0));
                        }
                    }
                    assert forall|k: Seq<char>| #[trigger] self.spec_map().contains_key(
                        k,
                    ) implies self.spec_map()[k] == target[k] by {
                        if k == key@ {
                            assert(newp[i as int].0 == key@);
                            assert(self.spec_map()[newp[i as int].0] == newp[i as int].1);
                        } else {
                            let j = choose|j: int|
                                0 <= j < newp.len() && (#[trigger] newp[j]).0 == k;
                            assert(j != i as int);
                            assert(self.spec_map()[newp[j].0] == newp[j].1);
                            assert(oldpairs[j] == newp[j]);
                            assert(old(self).spec_map()[oldpairs[j].0] == oldpairs[j].1);
                        }
                    }
                    assert(self.spec_map() =~= target);
                }
                return ;
            }
            i = i + 1;
        }
        let ghost oldpairs = self.pairs();
        self.0.push((key, value));
        proof {
            assert(self.pairs() =~= oldpairs.push((key@, value@)));
            assert forall|x: int, y: int|
                0 <= x < y < self.pairs().len() implies (#[trigger] self.pairs()[x]).0 != (
            #[trigger] self.pairs()[y]).0 by {
                if y == oldpairs.len() {
                    assert(self.pairs()[x] == oldpairs[x]);
                    assert(oldpairs[x].0 != key@);
                } else {
                    assert(self.pairs()[x] == oldpairs[x]);
                    assert(self.pairs()[y] == oldpairs[y]);
                }
            }
            lemma_tag_map_lookup(*old(self));
            lemma_tag_map_lookup(*self);
            let newp = self.pairs();
            let ghost n0 = oldpairs.len() as int;
            let target = old(self).spec_map().insert(key@, value@);
            assert forall|k: Seq<char>| #[trigger] self.spec_map().contains_key(
                k,
            ) implies target.contains_key(k) by {
                let j = choose|j: int| 0 <= j < newp.len() && (#[trigger] newp[j]).0 == k;
                if k != key@ {
                    assert(j != n0);
                    assert(oldpairs[j].0 == k);
                    assert(old(self).spec_map().contains_key(oldpairs[j].0));
                }
            }
            assert forall|k: Seq<char>| #[trigger] target.contains_key(
                k,
            ) implies self.spec_map().contains_key(k) by {
                if k == key@ {
                    assert(newp[n0].0 == k);
                    assert(self.spec_map().contains_key(newp[n0].0));
                } else {
                    let j = choose|j: int|
                        0 <= j < oldpairs.len() && (#[trigger] oldpairs[j]).0 == k;
                    assert(newp[j].0 == k);
                    assert(self.spec_map().contains_key(newp[j].0));
                }
            }
            assert forall|k: Seq<char>| #[trigger] self.spec_map().contains_key(
                k,
            ) implies self.spec_map()[k] == target[k] by {
                if k == key@ {
                    assert(newp[n0].0 == key@);
                    assert(self.spec_map()[newp[n0].0] == newp[n0].1);
                } else {
                    let j = choose|j: int| 0 <= j < newp.len() && (#[trigger] newp[j]).0 == k;
                    assert(j != n0);
                    assert(self.spec_map()[newp[j].0] == newp[j].1);
                    assert(oldpairs[j] == newp[j]);
                    assert(old(self).spec_map()[oldpairs[j].0] == oldpairs[j].1);
                }
            }
            assert(self.spec_map() =~= target);
        }
    }

    /// Removes the entry under `key`, if present.
    pub fn remove(&mut self, key: &str)
        requires
            old(self).wf(),
        ensures
            final(self).wf(),
            final(self).spec_map() == old(self).spec_map().remove(key@),
    {
        let kc = to_chars(key);
        let n = self.0.len();
        proof {
            assert(self.pairs() =~= old(self).pairs());
        }
        let mut i: usize = 0;
        while i < n
            invariant
                old(self).wf(),
                n == self.0@.len(),
                i <= n,
                kc@ == key@,
                self.0@ == old(self).0@,
                self.pairs() == old(self).pairs(),
                forall|j: int| 0 <= j < i as int ==> (#[trigger] self.pairs()[j]).0 != key@,
            decreases n - i,
        {
            let ec = to_chars(self.0[i].0.as_str());
            if eq_chars(&ec, &kc) {
                let ghost oldpairs = self.pairs();
                self.0.remove(i);
                proof {
                    assert(self.pairs() =~= oldpairs.remove(i as int));
                    lemma_map_remove(oldpairs, self.pairs(), i as int, key@);
                    lemma_tag_map_lookup(*old(self));
                    lemma_tag_map_lookup(*self);
                    let newp = self.pairs();
                    let ghost i0 = i as int;
                    let target = old(self).spec_map().remove(key@);
                    assert forall|k: Seq<char>| #[trigger] self.spec_map().contains_key(
                        k,
                    ) implies target.contains_key(k) by {
                        let j = choose|j: int|
                            0 <= j < newp.len() && (#[trigger] newp[j]).0 == k;
                        let j2 = if j < i0 { j } else { j + 1 };
                        assert(oldpairs[j2].0 == k);
                        assert(old(self).spec_map().contains_key(oldpairs[j2].0));
                        assert(j2 != i0);
                        assert(oldpairs[i0].0 == key@);
                        assert(k != key@);
                    }
                    assert forall|k: Seq<char>| #[trigger] target.contains_key(
                        k,
                    ) implies self.spec_map().contains_key(k) by {
                        let j = choose|j: int|
                            0 <= j < oldpairs.len() && (#[trigger] oldpairs[j]).0 == k;
                        assert(j != i0);
                        let j2 = if j < i0 { j } else { j - 1 };
                        assert(newp[j2].0 == k);
                        assert(self.spec_map().contains_key(newp[j2].0));
                    }
                    assert forall|k: Seq<char>| #[trigger] self.spec_map().contains_key(
                        k,
                    ) implies self.spec_map()[k] == target[k] by {
                        let j = choose|j: int|
                            0 <= j < newp.len() && (#[trigger] newp[j]).0 == k;
                        let j2 = if j < i0 { j } else { j + 1 };
                        assert(oldpairs[j2] == newp[j]);
                        assert(self.spec_map()[newp[j].0] == newp[j].1);
                        assert(old(self).spec_map()[oldpairs[j2].0] == oldpairs[j2].1);
                        assert(k != key@);
                    }
                    assert(self.spec_map() =~= target);
                }
                return ;
            }
            i = i + 1;
        }
        proof {
            assert(!old(self).spec_map().contains_key(key@)) by {
                if old(self).spec_map().contains_key(key@) {
                    lemma_tag_map_lookup(*old(self));
                    let j = choose|j: int|
                        0 <= j < old(self).pairs().len() && (#[trigger] old(self).pairs()[j]).0
                            == key@;
                    assert(self.pairs()[j].0 == key@);
                    assert(false);
                }
            }
            assert forall|k: Seq<char>| #[trigger] self.spec_map().contains_key(k)
                == old(self).spec_map().contains_key(k) by {}
            assert forall|k: Seq<char>| #[trigger] self.spec_map().contains_key(
                k,
            ) implies self.spec_map()[k] == old(self).spec_map()[k] by {
                lemma_tag_map_lookup(*old(self));
                lemma_tag_map_lookup(*self);
                let j = choose|j: int|
                    0 <= j < self.pairs().len() && (#[trigger] self.pairs()[j]).0 == k;
                assert(self.spec_map()[self.pairs()[j].0] == self.pairs()[j].1);
                assert(old(self).spec_map()[old(self).pairs()[j].0] == old(self).pairs()[j].1);
            }
            assert(self.spec_map() =~= old(self).spec_map().remove(key@));
        }
    }
}

/// In a well-formed tag map, each entry is found in the denoted mapping,
/// and every key of the mapping comes from an entry.
pub proof fn lemma_tag_map_lookup(m: TagMap)
    requires
        m.wf(),
    ensures
        forall|j: int|
            0 <= j < m.pairs().len() ==> #[trigger] m.spec_map().contains_key(m.pairs()[j].0)
                && m.spec_map()[m.pairs()[j].0] == m.pairs()[j].1,
        forall|k: Seq<char>|
            #[trigger] m.spec_map().contains_key(k) ==> exists|j: int|
                0 <= j < m.pairs().len() && (#[trigger] m.pairs()[j]).0 == k,
{
    assert forall|j: int| 0 <= j < m.pairs().len() implies #[trigger] m.spec_map().contains_key(
        m.pairs()[j].0,
    ) && m.spec_map()[m.pairs()[j].0] == m.pairs()[j].1 by {
        let k = m.pairs()[j].0;
        assert(0 <= j < m.pairs().len() && (m.pairs()[j]).0 == k);
        assert(m.spec_map().contains_key(k));
        let w = choose|i: int| 0 <= i < m.pairs().len() && (#[trigger] m.pairs()[i]).0 == k;
        if w != j {
            assert((m.pairs()[w]).0 == (m.pairs()[j]).0);
            assert(false);
        }
    }
}

/// After replacing the entry at `i` (whose name is `k`, occurring nowhere
/// else) with `(k, v)`, the denoted mapping is the old one with `k` bound
/// to `v`.
proof fn lemma_map_update(
    oldp: Seq<(Seq<char>, TagValueV)>,
    newp: Seq<(Seq<char>, TagValueV)>,
    i: int,
    k: Seq<char>,
    v: TagValueV,
)
    requires
        0 <= i < oldp.len(),
        oldp[i].0 == k,
        forall|x: int, y: int|
            0 <= x < y < oldp.len() ==> (#[trigger] oldp[x]).0 != (#[trigger] oldp[y]).0,
        newp == oldp.update(i, (k, v)),
    ensures
        forall|x: int, y: int|
            0 <= x < y < newp.len() ==> (#[trigger] newp[x]).0 != (#[trigger] newp[y]).0,
{
    assert forall|x: int, y: int|
        0 <= x < y < newp.len() implies (#[trigger] newp[x]).0 != (#[trigger] newp[y]).0 by {
        assert(oldp[x].0 != oldp[y].0);
    }
}

/// After removing the entry at `i` (whose name is `k`, occurring nowhere
/// else), the denoted mapping is the old one without `k`.
proof fn lemma_map_remove(
    oldp: Seq<(Seq<char>, TagValueV)>,
    newp: Seq<(Seq<char>, TagValueV)>,
    i: int,
    k: Seq<char>,
)
    requires
        0 <= i < oldp.len(),
        oldp[i].0 == k,
        forall|x: int, y: int|
            0 <= x < y < oldp.len() ==> (#[trigger] oldp[x]).0 != (#[trigger] oldp[y]).0,
        newp == oldp.remove(i),
    ensures
        forall|x: int, y: int|
            0 <= x < y < newp.len() ==> (#[trigger] newp[x]).0 != (#[trigger] newp[y]).0,
        forall|x: int|
            0 <= x < newp.len() ==> (#[trigger] newp[x]) == (if x < i {
                oldp[x]
            } else {
                oldp[x + 1]
            }),
{
}

/// A reference to a piece of artwork by content hash, media type and size.
#[derive(Debug, Clone, PartialEq, Eq)]
pub struct ArtworkRef {
    pub hash: String,
    pub mime: String,
    pub size: u64,
}

/// The mathematical value of an `ArtworkRef`.
pub struct ArtworkRefV {
    pub hash: Seq<char>,
    pub mime: Seq<char>,
    pub size: u64,
}

impl View for ArtworkRef {
    type V = ArtworkRefV;

    open spec fn view(&self) -> ArtworkRefV {
        ArtworkRefV { hash: self.hash@, mime: self.mime@, size: self.size }
    }
}

/// The mathematical value of an optional artwork reference.
pub open spec fn opt_artwork_view(o: Option<ArtworkRef>) -> Option<ArtworkRefV> {
    match o {
        None => None,
        Some(a) => Some(a@),
    }
}

/// The mathematical value of an optional string.
pub open spec fn opt_string_view(o: Option<String>) -> Option<Seq<char>> {
    match o {
        None => None,
        Some(s) => Some(s@),
    }
}

/// The metadata of one track, as presented to callers.
#[derive(Debug, PartialEq)]
pub struct TrackMetadata {
    pub id: TrackId,
    pub title: String,
    pub artist: String,
    pub album_artist: Option<String>,
    pub duration_ms: u64,
    pub tags: TagMap,
    pub artwork: Option<ArtworkRef>,
}

/// The mathematical value of a `TrackMetadata`, with the tags as the pair
/// sequence they are stored as.
pub struct TrackMetadataV {
    pub id: TrackIdV,
    pub title: Seq<char>,
    pub artist: Seq<char>,
    pub album_artist: Option<Seq<char>>,
    pub duration_ms: u64,
    pub tags: Seq<(Seq<char>, TagValueV)>,
    pub artwork: Option<ArtworkRefV>,
}

impl View for TrackMetadata {
    type V = TrackMetadataV;

    open spec fn view(&self) -> TrackMetadataV {
        TrackMetadataV {
            id: self.id@,
            title: self.title@,
            artist: self.artist@,
            album_artist: opt_string_view(self.album_artist),
            duration_ms: self.duration_ms,
            tags: self.tags.pairs(),
            artwork: opt_artwork_view(self.artwork),
        }
    }
}

/// The metadata of one album.
#[derive(Debug, PartialEq)]
pub struct AlbumMetadata {
    pub id: AlbumId,
    pub title: String,
    pub album_artist: Option<String>,
    pub year: Option<u32>,
    pub tracks: Vec<TrackId>,
    pub artwork: Option<ArtworkRef>,
    pub tags: TagMap,
}

/// The mathematical value of an `AlbumMetadata`.
pub struct AlbumMetadataV {
    pub id: Seq<char>,
    pub title: Seq<char>,
    pub album_artist: Option<Seq<char>>,
    pub year: Option<u32>,
    pub tracks: Seq<TrackIdV>,
    pub artwork: Option<ArtworkRefV>,
    pub tags: Seq<(Seq<char>, TagValueV)>,
}

impl View for AlbumMetadata {
    type V = AlbumMetadataV;

    open spec fn view(&self) -> AlbumMetadataV {
        AlbumMetadataV {
            id: self.id@,
            title: self.title@,
            album_artist: opt_string_view(self.album_artist),
            year: self.year,
            tracks: Seq::new(self.tracks@.len(), |i: int| self.tracks@[i]@),
            artwork: opt_artwork_view(self.artwork),
            tags: self.tags.pairs(),
        }
    }
}

/// A user edit session over a track's tags: names to set and names to
/// remove. A delta is persisted whole and applied over freshly read file
/// metadata, removals first.
#[derive(Debug, PartialEq)]
pub struct TagDelta {
    pub set: TagMap,
    pub remove: Vec<String>,
}

/// The mathematical value of a `TagDelta`.
pub struct TagDeltaV {
    pub set: Seq<(Seq<char>, TagValueV)>,
    pub remove: Seq<Seq<char>>,
}

impl View for TagDelta {
    type V = TagDeltaV;

    open spec fn view(&self) -> TagDeltaV {
        TagDeltaV {
            set: self.set.pairs(),
            remove: Seq::new(self.remove@.len(), |i: int| self.remove@[i]@),
        }
    }
}

impl TagDelta {
    /// Whether the delta neither sets nor removes anything.
    pub fn is_empty(&self) -> (r: bool)
        ensures
            r == (self@.set.len() == 0 && self@.remove.len() == 0),
    {
        self.set.0.len() == 0 && self.remove.len() == 0
    }
}

/// Where one text splits in two ways as a prefix, a dash and a trailing
/// run of digits, the ways agree: the digits contain no dash, so the dash
/// before them is pinned.
proof fn lemma_dash_digit_split(
    s: Seq<char>,
    p1: Seq<char>,
    d1: Seq<char>,
    p2: Seq<char>,
    d2: Seq<char>,
)
    requires
        s == p1 + seq!['-'] + d1,
        s == p2 + seq!['-'] + d2,
        forall|i: int| 0 <= i < d1.len() ==> crate::text::is_digit(#[trigger] d1[i]),
        forall|i: int| 0 <= i < d2.len() ==> crate::text::is_digit(#[trigger] d2[i]),
    ensures
        p1 == p2,
        d1 == d2,
{
    assert(s.len() == p1.len() + 1 + d1.len());
    assert(s.len() == p2.len() + 1 + d2.len());
    assert(!crate::text::is_digit('-'));
    if d1.len() < d2.len() {
        let pos = p1.len() as int;
        assert(s[pos] == '-');
        let j = pos - (p2.len() + 1);
        assert(0 <= j < d2.len());
        assert(s[pos] == d2[j]);
        assert(false);
    }
    if d2.len() < d1.len() {
        let pos = p2.len() as int;
        assert(s[pos] == '-');
        let j = pos - (p1.len() + 1);
        assert(0 <= j < d1.len());
        assert(s[pos] == d1[j]);
        assert(false);
    }
    assert forall|i: int| 0 <= i < d1.len() implies d1[i] == d2[i] by {
        assert(d1[i] == s[p1.len() + 1 + i]);
        assert(d2[i] == s[p2.len() + 1 + i]);
    }
    assert(d1 =~= d2);
    assert forall|i: int| 0 <= i < p1.len() implies p1[i] == p2[i] by {
        assert(p1[i] == s[i]);
        assert(p2[i] == s[i]);
    }
    assert(p1 =~= p2);
}

/// Two distinct track identifiers never share a canonical string: the
/// index digits run from the last hyphen to the end, the disc digits from
/// the hyphen before, and what remains is the album.
pub proof fn lemma_canonical_injective(a: TrackIdV, b: TrackIdV)
    requires
        spec_canonical(a) == spec_canonical(b),
    ensures
        a == b,
{
    reveal_strlit("-");
    assert("-"@ =~= seq!['-']);
    let s = spec_canonical(a);
    let da = dec_pad2(a.disc as nat);
    let db = dec_pad2(b.disc as nat);
    let ia = dec_pad2(a.index as nat);
    let ib = dec_pad2(b.index as nat);
    crate::text::lemma_dec_pad2_facts(a.disc as nat);
    crate::text::lemma_dec_pad2_facts(b.disc as nat);
    crate::text::lemma_dec_pad2_facts(a.index as nat);
    crate::text::lemma_dec_pad2_facts(b.index as nat);
    let pa = a.album + seq!['-'] + da;
    let pb = b.album + seq!['-'] + db;
    assert(s =~= pa + seq!['-'] + ia);
    assert(spec_canonical(b) =~= pb + seq!['-'] + ib);
    lemma_dash_digit_split(s, pa, ia, pb, ib);
    lemma_dash_digit_split(pa, a.album, da, b.album, db);
    assert(a.index == b.index);
    assert(a.disc == b.disc);
    assert(a.album == b.album);
}

} // verus!
