use musfuse::config::{LosslessStrategy, PolicyConfig};
use musfuse::error::MusFuseError;
use musfuse::filesystem::{FileRouter, MediaEngine, VirtualEntry};
use musfuse::kv::KvStore;
use musfuse::media::{
    AudioChunk, AudioReader, CoverExtractor, FormatTranscoder, TranscodeRequest, TranscodeResult,
};
use musfuse::metadata::{AlbumId, TagDelta, TagMap, TagValue, TrackId, TrackMetadata};
use musfuse::policy::AudioFormatPolicy;
use musfuse::sled_backend::SledBackend;
use musfuse::tag::{KvTagPersistence, TagOverlay, TagReader};
use musfuse::track::{SourceTrack, TrackIndex, TrackIndexEntry, TrackMapper};
use musfuse::cue::{CueFile, CueSheet, CueTrack};

struct StubAudio;

impl AudioReader for StubAudio {
    fn read(&self, _track: &SourceTrack) -> Result<Vec<AudioChunk>, MusFuseError> {
        Ok(vec![])
    }
}

struct StubTranscoder;

impl FormatTranscoder for StubTranscoder {
    fn transcoded(
        &self,
        _track: musfuse::track::SourceTrackV,
        _policy: musfuse::policy::AudioFormatPolicy,
    ) -> Option<musfuse::media::TranscodeResultV> {
        None
    }

    fn transcode(&self, request: &TranscodeRequest) -> Result<TranscodeResult, MusFuseError> {
        Ok(TranscodeResult {
            track_id: request.track.id.clone(),
            format: String::from("wav"),
            chunks: vec![
                AudioChunk { data: vec![1, 2], timestamp_ms: 0, is_end: false },
                AudioChunk { data: vec![3], timestamp_ms: 1, is_end: true },
            ],
        })
    }
}

struct StubCover;

impl CoverExtractor for StubCover {
    fn cover_of(
        &self,
        _track: musfuse::track::SourceTrackV,
    ) -> Option<Option<vstd::seq::Seq<u8>>> {
        None
    }

    fn extract(&self, _track: &SourceTrack) -> Result<Option<Vec<u8>>, MusFuseError> {
        Ok(Some(vec![4, 5]))
    }
}

/// Echoes the selected policy through the produced bytes, so a test can
/// see which policy the engine chose.
struct PolicyEcho;

impl FormatTranscoder for PolicyEcho {
    fn transcoded(
        &self,
        _track: musfuse::track::SourceTrackV,
        _policy: musfuse::policy::AudioFormatPolicy,
    ) -> Option<musfuse::media::TranscodeResultV> {
        None
    }

    fn transcode(&self, request: &TranscodeRequest) -> Result<TranscodeResult, MusFuseError> {
        let tag = match request.policy {
            AudioFormatPolicy::PassthroughLossy => 1,
            AudioFormatPolicy::PassthroughLossless => 2,
            AudioFormatPolicy::ConvertLossless => 3,
        };
        Ok(TranscodeResult {
            track_id: request.track.id.clone(),
            format: String::from("echo"),
            chunks: vec![AudioChunk { data: vec![tag], timestamp_ms: 0, is_end: true }],
        })
    }
}

struct StubReader;

impl TagReader for StubReader {
    fn file_meta(
        &self,
        _track: musfuse::metadata::TrackIdV,
        _path: vstd::seq::Seq<char>,
    ) -> Option<musfuse::metadata::TrackMetadataV> {
        None
    }

    fn read_from_file(
        &self,
        track: &TrackId,
        _path: &String,
    ) -> Result<TrackMetadata, MusFuseError> {
        Ok(TrackMetadata {
            id: track.clone(),
            title: String::from("T"),
            artist: String::from("A"),
            album_artist: None,
            duration_ms: 1,
            tags: TagMap(vec![]),
            artwork: None,
        })
    }
}

fn entry(album: &str, index: u32) -> TrackIndexEntry {
    let id = TrackId { album: AlbumId(String::from(album)), disc: 1, index };
    TrackIndexEntry {
        id: id.clone(),
        metadata: TrackMetadata {
            id: id.clone(),
            title: String::from("T"),
            artist: String::from("A"),
            album_artist: None,
            duration_ms: 0,
            tags: TagMap(vec![]),
            artwork: None,
        },
        source: SourceTrack {
            id,
            path: String::from("/music/d.flac"),
            cue_path: None,
            offset_frames: 0,
            length_frames: 0,
            sample_rate: 44_100,
            channels: 2,
        },
    }
}

fn make_router(
    dir: &std::path::Path,
    entries: Vec<TrackIndexEntry>,
) -> FileRouter<StubAudio, StubTranscoder, StubCover, StubReader, KvTagPersistence<SledBackend>> {
    let policy = PolicyConfig {
        lossless_strategy: LosslessStrategy::Passthrough,
        lossy_passthrough: true,
    };
    let media = MediaEngine::new(StubAudio, StubTranscoder, StubCover, policy);
    let backend = SledBackend::open(dir.to_str().unwrap()).unwrap();
    let overlay = TagOverlay::new(StubReader, KvTagPersistence::new(KvStore::new(backend)));
    FileRouter::new(entries, media, overlay)
}

#[test]
fn resolve_finds_track_by_canonical_path() {
    let dir = tempfile::tempdir().unwrap();
    let router = make_router(dir.path(), vec![entry("album", 2)]);

    let hit = router.resolve("album-01-02.flac");
    match hit {
        Some(VirtualEntry::TrackFile(id)) => {
            assert_eq!(id.album, AlbumId(String::from("album")));
            assert_eq!(id.index, 2);
        },
        other => panic!("unexpected resolution {other:?}"),
    }

    assert_eq!(router.resolve("album-01-03.flac"), None);
    assert_eq!(router.resolve("unknown"), None);
    assert_eq!(
        router.resolve("/"),
        Some(VirtualEntry::Directory(String::from("/")))
    );
    // Without a .flac suffix the bare canonical stem matches too.
    assert!(matches!(
        router.resolve("/album-01-02/"),
        Some(VirtualEntry::TrackFile(_))
    ));
}

#[test]
fn resolve_works_against_a_mapped_cue() {
    let sheet = CueSheet {
        album_title: None,
        album_performer: None,
        files: vec![CueFile {
            path: String::from("/music/d.flac"),
            tracks: vec![
                CueTrack { number: 1, title: None, performer: None, index_01_frames: 0 },
                CueTrack { number: 2, title: None, performer: None, index_01_frames: 9000 },
            ],
        }],
    };
    let index: TrackIndex =
        TrackMapper::from_cue(&sheet, &AlbumId(String::from("album")), None);
    let dir = tempfile::tempdir().unwrap();
    let router = make_router(dir.path(), index.entries);
    assert!(matches!(
        router.resolve("album-01-02.flac"),
        Some(VirtualEntry::TrackFile(_))
    ));
}

#[test]
fn stream_policy_follows_the_source_extension() {
    let policy = PolicyConfig {
        lossless_strategy: LosslessStrategy::ConvertToFlac,
        lossy_passthrough: true,
    };
    let engine = MediaEngine::new(StubAudio, PolicyEcho, StubCover, policy);

    let mut lossy = entry("album", 1);
    lossy.source.path = String::from("/music/a.mp3");
    assert_eq!(engine.stream_track(&lossy).unwrap(), vec![1]);

    let mut lossless = entry("album", 2);
    lossless.source.path = String::from("/music/a.flac");
    assert_eq!(engine.stream_track(&lossless).unwrap(), vec![3]);
}

#[test]
fn read_track_concatenates_transcoded_chunks() {
    let dir = tempfile::tempdir().unwrap();
    let router = make_router(dir.path(), vec![entry("album", 1)]);
    let id = TrackId { album: AlbumId(String::from("album")), disc: 1, index: 1 };
    assert_eq!(router.read_track(&id).unwrap(), vec![1, 2, 3]);
}

#[test]
fn missing_tracks_are_a_distinct_error() {
    let dir = tempfile::tempdir().unwrap();
    let mut router = make_router(dir.path(), vec![]);
    let id = TrackId { album: AlbumId(String::from("album")), disc: 1, index: 1 };
    let not_found = MusFuseError::Mount(String::from("track not found"));
    assert_eq!(router.read_track(&id), Err(not_found.clone()));
    assert_eq!(router.read_tags(&id), Err(not_found.clone()));
    let delta = TagDelta { set: TagMap(vec![]), remove: vec![] };
    assert_eq!(router.write_tags(&id, &delta), Err(not_found));
}

#[test]
fn write_tags_then_read_tags_reflects_the_delta() {
    let dir = tempfile::tempdir().unwrap();
    let mut router = make_router(dir.path(), vec![entry("album", 1)]);
    let id = TrackId { album: AlbumId(String::from("album")), disc: 1, index: 1 };
    let delta = TagDelta {
        set: TagMap(vec![(String::from("RATING"), TagValue::Number(5))]),
        remove: vec![],
    };
    let merged = router.write_tags(&id, &delta).unwrap();
    assert_eq!(merged.tags.get("RATING"), Some(&TagValue::Number(5)));
    let read = router.read_tags(&id).unwrap();
    assert_eq!(read.tags.get("RATING"), Some(&TagValue::Number(5)));
}

#[test]
fn track_index_by_id_finds_entries() {
    let index = TrackIndex { entries: vec![entry("a", 1), entry("a", 2)] };
    let id = TrackId { album: AlbumId(String::from("a")), disc: 1, index: 2 };
    let found = index.by_id(&id).expect("present");
    assert_eq!(found.id, id);
    let missing = TrackId { album: AlbumId(String::from("b")), disc: 1, index: 2 };
    assert!(index.by_id(&missing).is_none());
}

#[test]
fn canonical_form_pads_disc_and_index() {
    let id = TrackId { album: AlbumId(String::from("al")), disc: 3, index: 12 };
    assert_eq!(id.canonical(), "al-03-12");
    let wide = TrackId { album: AlbumId(String::from("al")), disc: 3, index: 123 };
    assert_eq!(wide.canonical(), "al-03-123");
}
