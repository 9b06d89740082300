//! Source track descriptors and the mapping from a parsed CUE sheet to a
//! track index with computed offsets and lengths.

use vstd::prelude::*;

use crate::cue::{spec_frames_to_ms, frames_to_ms, CueSheet, CueSheetV, CueTrackV};
use crate::metadata::{
    AlbumId, TagMap, TagValueV, TrackId, TrackIdV, TrackMetadata, TrackMetadataV,
};
use crate::text::{chars_to_string, dec_pad2, eq_chars, push_chars, to_chars, u64_to_dec_pad2};

verus! {

/// Where a logical track physically lives: the file, the frame window
/// inside it, and the stream geometry. `length_frames == 0` means "read to
/// the end of the underlying file". Several descriptors may share one
/// `path`: CUE slicing makes tracks physically overlapping, and none owns
/// the file.
#[derive(Debug, PartialEq)]
pub struct SourceTrack {
    pub id: TrackId,
    pub path: String,
    pub cue_path: Option<String>,
    pub offset_frames: u64,
    pub length_frames: u64,
    pub sample_rate: u32,
    pub channels: u16,
}

impl Clone for SourceTrack {
    /// A clone carries the same descriptor.
    fn clone(&self) -> (r: Self)
        ensures
            r@ == self@,
    {
        SourceTrack {
            id: self.id.clone(),
            path: self.path.clone(),
            cue_path: match &self.cue_path {
                Some(p) => Some(p.clone()),
                None => None,
            },
            offset_frames: self.offset_frames,
            length_frames: self.length_frames,
            sample_rate: self.sample_rate,
            channels: self.channels,
        }
    }
}

/// The mathematical value of a `SourceTrack`.
pub struct SourceTrackV {
    pub id: TrackIdV,
    pub path: Seq<char>,
    pub cue_path: Option<Seq<char>>,
    pub offset_frames: u64,
    pub length_frames: u64,
    pub sample_rate: u32,
    pub channels: u16,
}

impl View for SourceTrack {
    type V = SourceTrackV;

    open spec fn view(&self) -> SourceTrackV {
        SourceTrackV {
            id: self.id@,
            path: self.path@,
            cue_path: crate::metadata::opt_string_view(self.cue_path),
            offset_frames: self.offset_frames,
            length_frames: self.length_frames,
            sample_rate: self.sample_rate,
            channels: self.channels,
        }
    }
}

/// The tracks belonging to one album.
#[derive(Debug, Clone, PartialEq)]
pub struct TrackCollection {
    pub album: AlbumId,
    pub tracks: Vec<SourceTrack>,
}

/// One unit of the in-memory index: the identifier, the presented
/// metadata, and the physical source.
#[derive(Debug, PartialEq)]
pub struct TrackIndexEntry {
    pub id: TrackId,
    pub metadata: TrackMetadata,
    pub source: SourceTrack,
}

/// The mathematical value of a `TrackIndexEntry`.
pub struct TrackIndexEntryV {
    pub id: TrackIdV,
    pub metadata: TrackMetadataV,
    pub source: SourceTrackV,
}

impl View for TrackIndexEntry {
    type V = TrackIndexEntryV;

    open spec fn view(&self) -> TrackIndexEntryV {
        TrackIndexEntryV { id: self.id@, metadata: self.metadata@, source: self.source@ }
    }
}

/// The ordered index of all known tracks.
#[derive(Debug, PartialEq)]
pub struct TrackIndex {
    pub entries: Vec<TrackIndexEntry>,
}

impl View for TrackIndex {
    type V = Seq<TrackIndexEntryV>;

    open spec fn view(&self) -> Seq<TrackIndexEntryV> {
        Seq::new(self.entries@.len(), |i: int| self.entries@[i]@)
    }
}

/// The first index at or after `i` whose entry carries `id`; `None` when
/// there is none.
pub open spec fn spec_find_entry(entries: Seq<TrackIndexEntryV>, id: TrackIdV, i: int) -> Option<
    int,
>
    decreases entries.len() - i,
{
    if i < 0 || i >= entries.len() {
        None
    } else if entries[i].id == id {
        Some(i)
    } else {
        spec_find_entry(entries, id, i + 1)
    }
}

/// Whether two track identifiers are the same.
pub fn track_id_eq(a: &TrackId, b: &TrackId) -> (r: bool)
    ensures
        r == (a@ == b@),
{
    let ac = to_chars(a.album.0.as_str());
    let bc = to_chars(b.album.0.as_str());
    eq_chars(&ac, &bc) && a.disc == b.disc && a.index == b.index
}

impl TrackIndex {
    /// Looks `id` up in the index: the first entry carrying it, if any.
    pub fn by_id(&self, id: &TrackId) -> (r: Option<&TrackIndexEntry>)
        ensures
            match r {
                Some(e) => {
                    &&& spec_find_entry(self@, id@, 0) is Some
                    &&& e@ == self@[spec_find_entry(self@, id@, 0)->Some_0]
                    &&& e@.id == id@
                },
                None => spec_find_entry(self@, id@, 0) is None,
            },
    {
        let n = self.entries.len();
        let mut i: usize = 0;
        while i < n
            invariant
                n == self.entries@.len(),
                i <= n,
                spec_find_entry(self@, id@, 0) == spec_find_entry(self@, id@, i as int),
            decreases n - i,
        {
            if track_id_eq(&self.entries[i].id, id) {
                return Some(&self.entries[i]);
            }
            i = i + 1;
        }
        None
    }
}

/// The length in frames of track `t` of a file's track list: the distance
/// to the next track's start, zero when there is no next track or the next
/// track does not start later.
pub open spec fn spec_track_length(tracks: Seq<CueTrackV>, t: int) -> u64 {
    let next_start = if t + 1 < tracks.len() {
        tracks[t + 1].index_01_frames
    } else {
        tracks[t].index_01_frames
    };
    if next_start > tracks[t].index_01_frames {
        (next_start - tracks[t].index_01_frames) as u64
    } else {
        0
    }
}

/// The presented title of a CUE track: its own, else `Track` with the
/// zero-padded track number.
pub open spec fn spec_track_title(t: CueTrackV) -> Seq<char> {
    match t.title {
        Some(s) => s,
        None => "Track "@ + dec_pad2(t.number as nat),
    }
}

/// The presented artist of a CUE track: its performer, else the album
/// performer, else `Unknown Artist`.
pub open spec fn spec_track_artist(t: CueTrackV, album_performer: Option<Seq<char>>) -> Seq<char> {
    match t.performer {
        Some(p) => p,
        None => match album_performer {
            Some(p) => p,
            None => "Unknown Artist"@,
        },
    }
}

/// The index entry mapped from track `t` of file `f` of a sheet: disc 1,
/// the CUE track number as index, computed length and duration, CD-audio
/// geometry (44100 Hz, 2 channels), empty tags and no artwork.
pub open spec fn spec_entry(
    sheet: CueSheetV,
    album: Seq<char>,
    cue_path: Option<Seq<char>>,
    f: int,
    t: int,
) -> TrackIndexEntryV {
    let file = sheet.files[f];
    let track = file.tracks[t];
    let id = TrackIdV { album: album, disc: 1, index: track.number };
    let length = spec_track_length(file.tracks, t);
    TrackIndexEntryV {
        id: id,
        metadata: TrackMetadataV {
            id: id,
            title: spec_track_title(track),
            artist: spec_track_artist(track, sheet.album_performer),
            album_artist: sheet.album_performer,
            duration_ms: spec_frames_to_ms(length as nat) as u64,
            tags: Seq::<(Seq<char>, TagValueV)>::empty(),
            artwork: None,
        },
        source: SourceTrackV {
            id: id,
            path: file.path,
            cue_path: cue_path,
            offset_frames: track.index_01_frames,
            length_frames: length,
            sample_rate: 44100,
            channels: 2,
        },
    }
}

/// The entries mapped from file `f` of a sheet, in track order.
pub open spec fn spec_file_entries(
    sheet: CueSheetV,
    album: Seq<char>,
    cue_path: Option<Seq<char>>,
    f: int,
) -> Seq<TrackIndexEntryV> {
    Seq::new(sheet.files[f].tracks.len(), |t: int| spec_entry(sheet, album, cue_path, f, t))
}

/// The entries mapped from the files of a sheet from `f` on, in file
/// order.
pub open spec fn spec_entries_from(
    sheet: CueSheetV,
    album: Seq<char>,
    cue_path: Option<Seq<char>>,
    f: int,
) -> Seq<TrackIndexEntryV>
    decreases sheet.files.len() - f,
{
    if f < 0 || f >= sheet.files.len() {
        Seq::empty()
    } else {
        spec_file_entries(sheet, album, cue_path, f) + spec_entries_from(
            sheet,
            album,
            cue_path,
            f + 1,
        )
    }
}

/// Every track start of the sheet leaves its millisecond value inside a
/// `u64`.
pub open spec fn sheet_frames_bounded(sheet: CueSheetV) -> bool {
    forall|f: int, t: int|
        0 <= f < sheet.files.len() && 0 <= t < (#[trigger] sheet.files[f]).tracks.len() ==> (
        #[trigger] sheet.files[f].tracks[t]).index_01_frames <= u64::MAX as int / 1000
}

/// Maps parsed CUE sheets to track indices.
pub struct TrackMapper;

impl TrackMapper {
    /// Maps a parsed sheet to its track index: for each file, each track
    /// becomes one entry whose length runs to the next track's start (zero,
    /// meaning read-to-end, for the last track of a file), with title,
    /// artist and duration defaulted as the sheet provides.
    pub fn from_cue(sheet: &CueSheet, album_id: &AlbumId, cue_path: Option<&String>) -> (r:
        TrackIndex)
        requires
            sheet_frames_bounded(sheet@),
        ensures
            r@ == spec_entries_from(sheet@, album_id@, spec_cue_path(cue_path), 0),
    {
        let ghost shv = sheet@;
        let ghost album = album_id@;
        let ghost cp = spec_cue_path(cue_path);
        let mut entries: Vec<TrackIndexEntry> = Vec::new();
        let nf = sheet.files.len();
        let mut f: usize = 0;
        proof {
            assert(Seq::new(entries@.len(), |i: int| entries@[i]@) =~= Seq::<
                TrackIndexEntryV,
            >::empty());
        }
        while f < nf
            invariant
                shv == sheet@,
                album == album_id@,
                cp == spec_cue_path(cue_path),
                nf == sheet.files@.len(),
                f <= nf,
                sheet_frames_bounded(shv),
                Seq::new(entries@.len(), |i: int| entries@[i]@) =~= spec_entries_from(
                    shv,
                    album,
                    cp,
                    0,
                ).subrange(0, entries@.len() as int),
                entries@.len() == spec_entries_from(shv, album, cp, 0).len()
                    - spec_entries_from(shv, album, cp, f as int).len(),
            decreases nf - f,
        {
            let file = &sheet.files[f];
            let nt = file.tracks.len();
            let mut t: usize = 0;
            proof {
                lemma_entries_split(shv, album, cp, f as int);
            }
            while t < nt
                invariant
                    shv == sheet@,
                    album == album_id@,
                    cp == spec_cue_path(cue_path),
                    nf == sheet.files@.len(),
                    f < nf,
                    *file == sheet.files@[f as int],
                    nt == file.tracks@.len(),
                    t <= nt,
                    sheet_frames_bounded(shv),
                    Seq::new(entries@.len(), |i: int| entries@[i]@) =~= spec_entries_from(
                        shv,
                        album,
                        cp,
                        0,
                    ).subrange(0, entries@.len() as int),
                    entries@.len() == spec_entries_from(shv, album, cp, 0).len()
                        - spec_entries_from(shv, album, cp, f as int).len() + t as int,
                    t <= spec_file_entries(shv, album, cp, f as int).len(),
                    entries@.len() <= spec_entries_from(shv, album, cp, 0).len(),
                decreases nt - t,
            {
                let track = &file.tracks[t];
                let next_start: u64 = if t + 1 < nt {
                    file.tracks[t + 1].index_01_frames
                } else {
                    track.index_01_frames
                };
                let length_frames: u64 = if next_start > track.index_01_frames {
                    next_start - track.index_01_frames
                } else {
                    0
                };
                let track_id = TrackId { album: album_id.clone(), disc: 1, index: track.number };
                let title: String = match &track.title {
                    Some(s) => s.clone(),
                    None => {
                        proof {
                            reveal_strlit("Track ");
                        }
                        let mut tc = to_chars("Track ");
                        let num = u64_to_dec_pad2(track.number as u64);
                        push_chars(&mut tc, &num);
                        chars_to_string(&tc)
                    },
                };
                let artist: String = match &track.performer {
                    Some(p) => p.clone(),
                    None => match &sheet.album_performer {
                        Some(p) => p.clone(),
                        None => String::from_str("Unknown Artist"),
                    },
                };
                proof {
                    assert(shv.files[f as int].tracks[t as int].index_01_frames <= u64::MAX as int
                        / 1000);
                    if t as int + 1 < shv.files[f as int].tracks.len() {
                        assert(shv.files[f as int].tracks[t as int + 1].index_01_frames
                            <= u64::MAX as int / 1000);
                    }
                }
                let duration_ms = frames_to_ms(length_frames);
                let metadata = TrackMetadata {
                    id: track_id.clone(),
                    title: title,
                    artist: artist,
                    album_artist: match &sheet.album_performer {
                        Some(p) => Some(p.clone()),
                        None => None,
                    },
                    duration_ms: duration_ms,
                    tags: TagMap::new(),
                    artwork: None,
                };
                let source = SourceTrack {
                    id: track_id.clone(),
                    path: file.path.clone(),
                    cue_path: match cue_path {
                        Some(p) => Some(p.clone()),
                        None => None,
                    },
                    offset_frames: track.index_01_frames,
                    length_frames: length_frames,
                    sample_rate: 44100,
                    channels: 2,
                };
                let ghost oldlen = entries@.len() as int;
                let entry = TrackIndexEntry { id: track_id, metadata, source };
                proof {
                    assert(entry@.metadata.tags =~= Seq::<(Seq<char>, TagValueV)>::empty());
                    assert(entry@ == spec_entry(shv, album, cp, f as int, t as int));
                }
                entries.push(entry);
                proof {
                    lemma_entries_split(shv, album, cp, f as int);
                    lemma_entries_prefix(shv, album, cp, f as int);
                    let all = spec_entries_from(shv, album, cp, 0);
                    let tail = spec_entries_from(shv, album, cp, f as int);
                    assert(tail[t as int] == spec_file_entries(shv, album, cp, f as int)[t as int]);
                    assert(all[all.len() - tail.len() + t as int] == tail[t as int]);
                    assert(oldlen == all.len() - tail.len() + t as int);
                    assert(Seq::new(entries@.len(), |i: int| entries@[i]@) =~= all.subrange(
                        0,
                        entries@.len() as int,
                    ));
                }
                t = t + 1;
            }
            proof {
                lemma_entries_split(shv, album, cp, f as int);
            }
            f = f + 1;
        }
        let r = TrackIndex { entries };
        proof {
            let all = spec_entries_from(shv, album, cp, 0);
            assert(all.subrange(0, all.len() as int) =~= all);
            assert(r@ =~= all);
        }
        r
    }
}

/// The view of the optional CUE path argument.
pub open spec fn spec_cue_path(cue_path: Option<&String>) -> Option<Seq<char>> {
    match cue_path {
        None => None,
        Some(p) => Some(p@),
    }
}

/// What comes from file `f` on stands at the tail of the whole mapping:
/// element `j` of the tail is the element `offset + j` of the whole, where
/// the offset is the whole length less the tail length.
proof fn lemma_entries_prefix(
    sheet: CueSheetV,
    album: Seq<char>,
    cue_path: Option<Seq<char>>,
    f: int,
)
    requires
        0 <= f <= sheet.files.len(),
    ensures
        spec_entries_from(sheet, album, cue_path, 0).len() >= spec_entries_from(
            sheet,
            album,
            cue_path,
            f,
        ).len(),
        forall|j: int|
            0 <= j < spec_entries_from(sheet, album, cue_path, f).len()
                ==> #[trigger] spec_entries_from(sheet, album, cue_path, f)[j]
                == spec_entries_from(sheet, album, cue_path, 0)[spec_entries_from(
                sheet,
                album,
                cue_path,
                0,
            ).len() - spec_entries_from(sheet, album, cue_path, f).len() + j],
    decreases f,
{
    if f > 0 {
        lemma_entries_prefix(sheet, album, cue_path, f - 1);
        lemma_entries_split(sheet, album, cue_path, f - 1);
        let all = spec_entries_from(sheet, album, cue_path, 0);
        let prev = spec_entries_from(sheet, album, cue_path, f - 1);
        let cur = spec_entries_from(sheet, album, cue_path, f);
        let fl = spec_file_entries(sheet, album, cue_path, f - 1).len() as int;
        assert forall|j: int| 0 <= j < cur.len() implies #[trigger] cur[j] == all[all.len()
            - cur.len() + j] by {
            assert(prev[fl + j] == cur[j]);
            assert(prev[fl + j] == all[all.len() - prev.len() + (fl + j)]);
        }
    }
}

/// Splitting the mapped entries at file `f`: what comes from `f` on is the
/// entries of `f` followed by those of the later files, and the total
/// length adds up file by file.
proof fn lemma_entries_split(
    sheet: CueSheetV,
    album: Seq<char>,
    cue_path: Option<Seq<char>>,
    f: int,
)
    requires
        0 <= f < sheet.files.len(),
    ensures
        spec_entries_from(sheet, album, cue_path, f) == spec_file_entries(sheet, album, cue_path, f)
            + spec_entries_from(sheet, album, cue_path, f + 1),
        spec_entries_from(sheet, album, cue_path, f).len() == spec_file_entries(
            sheet,
            album,
            cue_path,
            f,
        ).len() + spec_entries_from(sheet, album, cue_path, f + 1).len(),
        spec_entries_from(sheet, album, cue_path, 0).len() >= spec_entries_from(
            sheet,
            album,
            cue_path,
            f,
        ).len(),
    decreases f,
{
    if f > 0 {
        lemma_entries_split(sheet, album, cue_path, f - 1);
    }
}

} // verus!
