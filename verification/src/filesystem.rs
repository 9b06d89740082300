//! The virtual filesystem surface: path resolution against the track
//! index, and dispatch of reads to the media engine and the tag overlay.

use vstd::prelude::*;

use crate::config::PolicyConfig;
use crate::error::MusFuseError;
use crate::media::{
    chunks_data, chunks_view, opt_bytes_view, path_ext, spec_ext_or_empty, AudioChunk, AudioReader,
    CoverExtractor, FormatTranscoder, TranscodeRequest,
};
use crate::metadata::{spec_canonical, TrackId, TrackIdV, TrackMetadata, TagDelta};
use crate::policy::{spec_from_extension, AudioFormatPolicy};
use crate::tag::{apply_delta_spec, spec_delta_key, TagOverlay, TagPersistence, TagReader};
use crate::text::{chars_to_string, eq_chars, subchars, to_chars, trim_char};
use crate::track::TrackIndexEntry;

verus! {

/// What a virtual path names: a directory, a track file, or a track's
/// cover image.
#[derive(Debug, Clone, PartialEq)]
pub enum VirtualEntry {
    Directory(String),
    TrackFile(TrackId),
    CoverImage(TrackId),
}

/// The mathematical value of a `VirtualEntry`.
pub enum VirtualEntryV {
    Directory(Seq<char>),
    TrackFile(TrackIdV),
    CoverImage(TrackIdV),
}

impl View for VirtualEntry {
    type V = VirtualEntryV;

    open spec fn view(&self) -> VirtualEntryV {
        match self {
            VirtualEntry::Directory(p) => VirtualEntryV::Directory(p@),
            VirtualEntry::TrackFile(id) => VirtualEntryV::TrackFile(id@),
            VirtualEntry::CoverImage(id) => VirtualEntryV::CoverImage(id@),
        }
    }
}

/// The media engine for one track: transcoding and cover extraction
/// through its collaborators, under the configured policies.
pub struct MediaEngine<R: AudioReader, T: FormatTranscoder, C: CoverExtractor> {
    reader: R,
    transcoder: T,
    cover: C,
    policy: PolicyConfig,
}

/// The concatenated bytes of a chunk stream, in order.
pub fn concat_chunks(chunks: &Vec<AudioChunk>) -> (r: Vec<u8>)
    ensures
        r@ == chunks_data(chunks_view(chunks@)),
{
    let mut out: Vec<u8> = Vec::new();
    let mut i: usize = 0;
    proof {
        assert(chunks_view(chunks@).subrange(0, 0) =~= Seq::<crate::media::AudioChunkV>::empty());
        assert(out@ =~= chunks_data(chunks_view(chunks@).subrange(0, 0)));
    }
    while i < chunks.len()
        invariant
            i <= chunks@.len(),
            out@ == chunks_data(chunks_view(chunks@).subrange(0, i as int)),
        decreases chunks@.len() - i,
    {
        let c = &chunks[i];
        let mut j: usize = 0;
        let ghost out0 = out@;
        while j < c.data.len()
            invariant
                j <= c.data@.len(),
                c == &chunks@[i as int],
                i < chunks@.len(),
                out@ == out0 + c.data@.subrange(0, j as int),
            decreases c.data@.len() - j,
        {
            let b = c.data[j];
            out.push(b);
            j = j + 1;
            proof {
                assert(out@ =~= out0 + c.data@.subrange(0, j as int));
            }
        }
        i = i + 1;
        proof {
            let cv = chunks_view(chunks@);
            let cur = cv.subrange(0, i as int);
            assert(cur.drop_last() =~= cv.subrange(0, i - 1));
            assert(cur.last() == cv[i - 1]);
            assert(c.data@.subrange(0, c.data@.len() as int) =~= c.data@);
            assert(out@ =~= chunks_data(cur));
        }
    }
    proof {
        assert(chunks_view(chunks@).subrange(0, chunks@.len() as int) =~= chunks_view(chunks@));
    }
    out
}

impl<R: AudioReader, T: FormatTranscoder, C: CoverExtractor> MediaEngine<R, T, C> {
    /// The transcoder this engine runs.
    pub closed spec fn spec_transcoder(&self) -> T {
        self.transcoder
    }

    /// The cover extractor this engine runs.
    pub closed spec fn spec_cover(&self) -> C {
        self.cover
    }

    /// The policies this engine applies.
    pub closed spec fn spec_policy(&self) -> PolicyConfig {
        self.policy
    }

    /// Builds an engine from its collaborators and the policies.
    pub fn new(reader: R, transcoder: T, cover: C, policy: PolicyConfig) -> (r: MediaEngine<
        R,
        T,
        C,
    >)
        ensures
            r.spec_transcoder() == transcoder,
            r.spec_cover() == cover,
            r.spec_policy() == policy,
    {
        MediaEngine { reader, transcoder, cover, policy }
    }

    /// The policy a track is served under: selected by the source file's
    /// extension, per the configured policies.
    pub open spec fn spec_track_policy(&self, track: crate::track::SourceTrackV) -> AudioFormatPolicy {
        spec_from_extension(spec_ext_or_empty(track.path), self.spec_policy())
    }

    /// Produces the presented bytes of a track: the transcoder runs under
    /// the policy the source file's extension selects, and on success the
    /// resulting chunks are concatenated in order.
    pub fn stream_track(&self, entry: &TrackIndexEntry) -> (r: Result<Vec<u8>, MusFuseError>)
        ensures
            r matches Ok(b) ==> ({
                let out = self.spec_transcoder().transcoded(
                    entry.source@,
                    self.spec_track_policy(entry.source@),
                );
                &&& out is Some
                &&& b@ == chunks_data(out->Some_0.chunks)
            }),
    {
        let pc = to_chars(entry.source.path.as_str());
        let policy = match path_ext(&pc) {
            Some(e) => {
                let es = chars_to_string(&e);
                AudioFormatPolicy::from_extension(es.as_str(), &self.policy)
            },
            None => {
                let policy = AudioFormatPolicy::from_extension("", &self.policy);
                proof {
                    reveal_strlit("");
                    assert(""@ =~= Seq::<char>::empty());
                }
                policy
            },
        };
        let request = TranscodeRequest { track: entry.source.clone(), policy };
        match self.transcoder.transcode(&request) {
            Err(e) => Err(e),
            Ok(result) => Ok(concat_chunks(&result.chunks)),
        }
    }

    /// Produces the track's cover image, if its extractor finds one.
    pub fn cover_image(&self, entry: &TrackIndexEntry) -> (r: Result<Option<Vec<u8>>, MusFuseError>)
        ensures
            r matches Ok(c) ==> self.spec_cover().cover_of(entry.source@) == Some(
                opt_bytes_view(c),
            ),
    {
        self.cover.extract(&entry.source)
    }
}

/// Whether `s` ends with the `.flac` suffix.
pub open spec fn has_flac_suffix(s: Seq<char>) -> bool {
    s.len() >= 5 && s.subrange(s.len() - 5, s.len() as int) == ".flac"@
}

/// The virtual path with its `.flac` suffix stripped, when present.
pub open spec fn spec_candidate(s: Seq<char>) -> Seq<char> {
    if has_flac_suffix(s) {
        s.subrange(0, s.len() - 5)
    } else {
        s
    }
}

/// The first index at or after `i` whose entry's canonical string is
/// `cand`; `None` when there is none.
pub open spec fn spec_find_canonical(
    entries: Seq<crate::track::TrackIndexEntryV>,
    cand: Seq<char>,
    i: int,
) -> Option<int>
    decreases entries.len() - i,
{
    if i < 0 || i >= entries.len() {
        None
    } else if spec_canonical(entries[i].id) == cand {
        Some(i)
    } else {
        spec_find_canonical(entries, cand, i + 1)
    }
}

/// What a virtual path resolves to against an index: the root is the root
/// directory; otherwise the path, less a `.flac` suffix, is matched
/// against each entry's canonical track string, and the first match is
/// the track's file; anything else resolves to nothing.
pub open spec fn spec_resolve(
    entries: Seq<crate::track::TrackIndexEntryV>,
    path: Seq<char>,
) -> Option<VirtualEntryV> {
    let t = crate::text::spec_trim_char(path, '/');
    if t.len() == 0 {
        Some(VirtualEntryV::Directory("/"@))
    } else {
        match spec_find_canonical(entries, spec_candidate(t), 0) {
            Some(j) => Some(VirtualEntryV::TrackFile(entries[j].id)),
            None => None,
        }
    }
}

/// Routes virtual paths to tracks and dispatches reads to the media
/// engine and tag overlay.
pub struct FileRouter<
    R: AudioReader,
    T: FormatTranscoder,
    C: CoverExtractor,
    RD: TagReader,
    P: TagPersistence,
> {
    index: Vec<TrackIndexEntry>,
    media: MediaEngine<R, T, C>,
    tags: TagOverlay<RD, P>,
}

impl<
    R: AudioReader,
    T: FormatTranscoder,
    C: CoverExtractor,
    RD: TagReader,
    P: TagPersistence,
> FileRouter<R, T, C, RD, P> {
    /// The index this router resolves against.
    pub closed spec fn spec_index(&self) -> Seq<crate::track::TrackIndexEntryV> {
        Seq::new(self.index@.len(), |i: int| self.index@[i]@)
    }

    /// The media engine this router dispatches to.
    pub closed spec fn spec_media(&self) -> MediaEngine<R, T, C> {
        self.media
    }

    /// The tag overlay this router dispatches to.
    pub closed spec fn spec_tags(&self) -> TagOverlay<RD, P> {
        self.tags
    }

    /// Builds a router over an index snapshot and its engines.
    pub fn new(
        index: Vec<TrackIndexEntry>,
        media: MediaEngine<R, T, C>,
        tags: TagOverlay<RD, P>,
    ) -> (r: FileRouter<R, T, C, RD, P>)
        ensures
            r.spec_index() == Seq::new(index@.len(), |i: int| index@[i]@),
    {
        FileRouter { index, media, tags }
    }

    /// Resolves a virtual path: the root maps to the root directory, and
    /// a path whose stem (less any `.flac` suffix) is the canonical
    /// string of an indexed track maps to that track's file. The lookup
    /// walks the index linearly: that is the verifiable form here, since
    /// a map keyed by the canonical string cannot carry a usable
    /// contract, and library-scale indices keep it acceptable.
    pub fn resolve(&self, path: &str) -> (r: Option<VirtualEntry>)
        ensures
            match r {
                Some(e) => spec_resolve(self.spec_index(), path@) == Some(e@),
                None => spec_resolve(self.spec_index(), path@) is None,
            },
    {
        let pc = to_chars(path);
        let t = trim_char(&pc, '/');
        if t.len() == 0 {
            return Some(VirtualEntry::Directory(String::from_str("/")));
        }
        let candidate: Vec<char> = if t.len() >= 5 {
            let flac = to_chars(".flac");
            let tail = subchars(&t, t.len() - 5, t.len());
            if eq_chars(&tail, &flac) {
                subchars(&t, 0, t.len() - 5)
            } else {
                proof {
                    assert(!has_flac_suffix(t@));
                }
                subchars(&t, 0, t.len())
            }
        } else {
            proof {
                assert(!has_flac_suffix(t@));
            }
            subchars(&t, 0, t.len())
        };
        proof {
            assert(t@.subrange(0, t@.len() as int) =~= t@);
        }
        let n = self.index.len();
        let mut i: usize = 0;
        while i < n
            invariant
                n == self.index@.len(),
                i <= n,
                t@ == crate::text::spec_trim_char(path@, '/'),
                t@.len() != 0,
                candidate@ == spec_candidate(t@),
                spec_find_canonical(self.spec_index(), candidate@, 0) == spec_find_canonical(
                    self.spec_index(),
                    candidate@,
                    i as int,
                ),
            decreases n - i,
        {
            let canon = self.index[i].id.canonical();
            let cc = to_chars(canon.as_str());
            if eq_chars(&cc, &candidate) {
                let r = Some(VirtualEntry::TrackFile(self.index[i].id.clone()));
                proof {
                    assert(self.spec_index()[i as int].id == self.index@[i as int].id@);
                    assert(spec_canonical(self.spec_index()[i as int].id) == candidate@);
                    assert(spec_find_canonical(self.spec_index(), candidate@, i as int) == Some(
                        i as int,
                    ));
                }
                return r;
            }
            i = i + 1;
        }
        None
    }

    /// Produces the presented bytes of the track `id` names: with the
    /// track indexed, a successful read is the concatenation of what the
    /// transcoder yields for its source under the extension-selected
    /// policy; an unknown id is a mount error naming the missing track.
    pub fn read_track(&self, id: &TrackId) -> (r: Result<Vec<u8>, MusFuseError>)
        ensures
            crate::track::spec_find_entry(self.spec_index(), id@, 0) is None ==> (r matches Err(e)
                && e matches MusFuseError::Mount(m) && m@ == "track not found"@),
            r matches Ok(b) ==> ({
                let found = crate::track::spec_find_entry(self.spec_index(), id@, 0);
                &&& found is Some
                &&& ({
                    let source = self.spec_index()[found->Some_0].source;
                    let out = self.spec_media().spec_transcoder().transcoded(
                        source,
                        self.spec_media().spec_track_policy(source),
                    );
                    &&& out is Some
                    &&& b@ == chunks_data(out->Some_0.chunks)
                })
            }),
    {
        let n = self.index.len();
        let mut i: usize = 0;
        while i < n
            invariant
                n == self.index@.len(),
                i <= n,
                crate::track::spec_find_entry(self.spec_index(), id@, 0)
                    == crate::track::spec_find_entry(self.spec_index(), id@, i as int),
            decreases n - i,
        {
            if crate::track::track_id_eq(&self.index[i].id, id) {
                proof {
                    assert(self.spec_index()[i as int].id == self.index@[i as int].id@);
                    assert(crate::track::spec_find_entry(self.spec_index(), id@, i as int)
                        == Some(i as int));
                }
                return self.media.stream_track(&self.index[i]);
            }
            i = i + 1;
        }
        Err(MusFuseError::Mount(String::from_str("track not found")))
    }

    /// Reads the presented metadata of the track `id` names — the file
    /// metadata with the stored delta applied — or a mount error naming
    /// the missing track.
    pub fn read_tags(&self, id: &TrackId) -> (r: Result<TrackMetadata, MusFuseError>)
        ensures
            crate::track::spec_find_entry(self.spec_index(), id@, 0) is None ==> (r matches Err(e)
                && e matches MusFuseError::Mount(m) && m@ == "track not found"@),
            r matches Ok(m) ==> ({
                let found = crate::track::spec_find_entry(self.spec_index(), id@, 0);
                &&& found is Some
                &&& ({
                    let path = self.spec_index()[found->Some_0].source.path;
                    let rd = self.spec_tags().spec_reader();
                    let ps = self.spec_tags().spec_persistence();
                    &&& rd.file_meta(id@, path) is Some
                    &&& {
                        let fm = rd.file_meta(id@, path)->Some_0;
                        if ps.deltas().contains_key(id@) {
                            crate::metadata::map_of_pairs(m@.tags) == apply_delta_spec(
                                crate::metadata::map_of_pairs(fm.tags),
                                ps.deltas()[id@],
                            )
                        } else {
                            m@ == fm
                        }
                    }
                })
            }),
    {
        let n = self.index.len();
        let mut i: usize = 0;
        while i < n
            invariant
                n == self.index@.len(),
                i <= n,
                crate::track::spec_find_entry(self.spec_index(), id@, 0)
                    == crate::track::spec_find_entry(self.spec_index(), id@, i as int),
            decreases n - i,
        {
            if crate::track::track_id_eq(&self.index[i].id, id) {
                return self.tags.read(id, &self.index[i].source.path);
            }
            i = i + 1;
        }
        Err(MusFuseError::Mount(String::from_str("track not found")))
    }

    /// Applies a tag delta to the track `id` names and returns the merged
    /// view, or a mount error naming the missing track.
    pub fn write_tags(&mut self, id: &TrackId, delta: &TagDelta) -> (r: Result<
        TrackMetadata,
        MusFuseError,
    >)
        ensures
            crate::track::spec_find_entry(old(self).spec_index(), id@, 0) is None ==> (r matches Err(
                e,
            ) && e matches MusFuseError::Mount(m) && m@ == "track not found"@),
            final(self).spec_index() == old(self).spec_index(),
            r matches Ok(m) ==> ({
                let found = crate::track::spec_find_entry(old(self).spec_index(), id@, 0);
                &&& found is Some
                &&& final(self).spec_tags().spec_persistence().deltas() == old(
                    self,
                ).spec_tags().spec_persistence().deltas().insert(id@, delta@)
                &&& ({
                    let path = old(self).spec_index()[found->Some_0].source.path;
                    let rd = old(self).spec_tags().spec_reader();
                    &&& rd.file_meta(id@, path) is Some
                    &&& crate::metadata::map_of_pairs(m@.tags) == apply_delta_spec(
                        crate::metadata::map_of_pairs(rd.file_meta(id@, path)->Some_0.tags),
                        delta@,
                    )
                })
            }),
    {
        let n = self.index.len();
        let mut i: usize = 0;
        while i < n
            invariant
                n == self.index@.len(),
                i <= n,
                self.index@ == old(self).index@,
                self.spec_index() == old(self).spec_index(),
                self.tags == old(self).tags,
                crate::track::spec_find_entry(self.spec_index(), id@, 0)
                    == crate::track::spec_find_entry(self.spec_index(), id@, i as int),
            decreases n - i,
        {
            if crate::track::track_id_eq(&self.index[i].id, id) {
                let path = self.index[i].source.path.clone();
                return self.tags.apply(id, &path, delta);
            }
            i = i + 1;
        }
        Err(MusFuseError::Mount(String::from_str("track not found")))
    }
}

} // verus!
