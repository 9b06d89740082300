use musfuse::error::MusFuseError;
use musfuse::kv::KvStore;
use musfuse::metadata::{AlbumId, TagDelta, TagMap, TagValue, TrackId, TrackMetadata};
use musfuse::sled_backend::SledBackend;
use musfuse::tag::{KvTagPersistence, TagOverlay, TagReader};

struct StubReader;

impl TagReader for StubReader {
    fn file_meta(
        &self,
        _track: musfuse::metadata::TrackIdV,
        _path: vstd::seq::Seq<char>,
    ) -> Option<musfuse::metadata::TrackMetadataV> {
        None
    }

    fn read_from_file(
        &self,
        _track: &TrackId,
        _path: &String,
    ) -> Result<TrackMetadata, MusFuseError> {
        Ok(sample_track())
    }
}

fn sample_track() -> TrackMetadata {
    TrackMetadata {
        id: track_id(),
        title: String::from("Track"),
        artist: String::from("Artist"),
        album_artist: None,
        duration_ms: 1000,
        tags: TagMap(vec![(String::from("COMMENT"), TagValue::Text(String::from("old")))]),
        artwork: None,
    }
}

fn track_id() -> TrackId {
    TrackId { album: AlbumId(String::from("album")), disc: 1, index: 1 }
}

#[test]
fn overlay_merges_delta() {
    let dir = tempfile::tempdir().unwrap();
    let backend = SledBackend::open(dir.path().to_str().unwrap()).unwrap();
    let store = KvStore::new(backend);
    let persistence = KvTagPersistence::new(store);
    let mut overlay = TagOverlay::new(StubReader, persistence);

    let delta = TagDelta {
        set: TagMap(vec![(String::from("RATING"), TagValue::Number(5))]),
        remove: vec![String::from("COMMENT")],
    };

    let merged = overlay
        .apply(&track_id(), &String::from("track.flac"), &delta)
        .unwrap();
    assert_eq!(merged.tags.get("RATING"), Some(&TagValue::Number(5)));
    assert_eq!(merged.tags.get("COMMENT"), None);

    let reloaded = overlay
        .read(&track_id(), &String::from("dummy.flac"))
        .unwrap();
    assert_eq!(reloaded.tags.get("RATING"), Some(&TagValue::Number(5)));
    assert_eq!(reloaded.tags.get("COMMENT"), None);
}

#[test]
fn overlay_read_without_delta_is_file_metadata() {
    let dir = tempfile::tempdir().unwrap();
    let backend = SledBackend::open(dir.path().to_str().unwrap()).unwrap();
    let persistence = KvTagPersistence::new(KvStore::new(backend));
    let overlay = TagOverlay::new(StubReader, persistence);

    let read = overlay.read(&track_id(), &String::from("track.flac")).unwrap();
    assert_eq!(read, sample_track());
}

#[test]
fn overlay_remove_forgets_the_delta() {
    let dir = tempfile::tempdir().unwrap();
    let backend = SledBackend::open(dir.path().to_str().unwrap()).unwrap();
    let persistence = KvTagPersistence::new(KvStore::new(backend));
    let mut overlay = TagOverlay::new(StubReader, persistence);

    let delta = TagDelta {
        set: TagMap(vec![(String::from("RATING"), TagValue::Number(5))]),
        remove: vec![],
    };
    overlay.apply(&track_id(), &String::from("t.flac"), &delta).unwrap();
    overlay.remove(&track_id()).unwrap();
    let read = overlay.read(&track_id(), &String::from("t.flac")).unwrap();
    assert_eq!(read, sample_track());
}

#[test]
fn name_both_removed_and_set_ends_up_set() {
    let dir = tempfile::tempdir().unwrap();
    let backend = SledBackend::open(dir.path().to_str().unwrap()).unwrap();
    let persistence = KvTagPersistence::new(KvStore::new(backend));
    let mut overlay = TagOverlay::new(StubReader, persistence);

    let delta = TagDelta {
        set: TagMap(vec![(String::from("COMMENT"), TagValue::Text(String::from("new")))]),
        remove: vec![String::from("COMMENT")],
    };
    let merged = overlay.apply(&track_id(), &String::from("t.flac"), &delta).unwrap();
    assert_eq!(
        merged.tags.get("COMMENT"),
        Some(&TagValue::Text(String::from("new")))
    );
}

#[test]
fn tag_map_insert_replaces_and_remove_deletes() {
    let mut m = TagMap::new();
    m.insert(String::from("A"), TagValue::Number(1));
    m.insert(String::from("A"), TagValue::Number(2));
    m.insert(String::from("B"), TagValue::Bool(true));
    assert_eq!(m.get("A"), Some(&TagValue::Number(2)));
    assert_eq!(m.get("B"), Some(&TagValue::Bool(true)));
    m.remove("A");
    assert_eq!(m.get("A"), None);
    assert_eq!(m.get("B"), Some(&TagValue::Bool(true)));
}

#[test]
fn delta_is_empty_only_without_entries() {
    let empty = TagDelta { set: TagMap(vec![]), remove: vec![] };
    assert!(empty.is_empty());
    let set_only = TagDelta {
        set: TagMap(vec![(String::from("A"), TagValue::Number(1))]),
        remove: vec![],
    };
    assert!(!set_only.is_empty());
    let remove_only = TagDelta { set: TagMap(vec![]), remove: vec![String::from("A")] };
    assert!(!remove_only.is_empty());
}

#[test]
fn error_messages_carry_their_kind() {
    assert_eq!(
        MusFuseError::Mount(String::from("boom")).message(),
        "mount error: boom"
    );
    assert_eq!(
        MusFuseError::Kv(String::from("x")).message(),
        "kv backend error: x"
    );
    assert_eq!(
        MusFuseError::Media(String::from("y")).message(),
        "media error: y"
    );
}
