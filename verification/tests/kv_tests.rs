use musfuse::kv::{KvBackend, KvCodec, KvKey, KvNamespace, KvStore};
use musfuse::metadata::{AlbumId, TagDelta, TagMap, TagValue, TrackId, TrackMetadata};
use musfuse::sled_backend::SledBackend;

fn test_store(path: &std::path::Path) -> KvStore<SledBackend> {
    let backend = SledBackend::open(path.to_str().expect("utf8 path")).expect("create store");
    KvStore::new(backend)
}

fn sample_delta() -> TagDelta {
    TagDelta {
        set: TagMap(vec![
            (String::from("RATING"), TagValue::Number(5)),
            (String::from("MOOD"), TagValue::Text(String::from("calm"))),
            (
                String::from("FLAGS"),
                TagValue::List(vec![TagValue::Bool(true), TagValue::Number(-3)]),
            ),
        ]),
        remove: vec![String::from("COMMENT")],
    }
}

#[test]
fn put_and_get_roundtrip() {
    let dir = tempfile::tempdir().expect("tempdir");
    let mut store = test_store(dir.path());
    let key = KvKey::new(KvNamespace::Track, String::from("album1-01-01"));

    let metadata = TrackMetadata {
        id: TrackId {
            album: AlbumId(String::from("album1")),
            disc: 1,
            index: 1,
        },
        title: String::from("Intro"),
        artist: String::from("Artist"),
        album_artist: None,
        duration_ms: 120_000,
        tags: TagMap(vec![]),
        artwork: None,
    };

    store.store(&key, &metadata).expect("store");
    let fetched = store.load::<TrackMetadata>(&key).expect("load");
    assert_eq!(fetched, Some(metadata));
}

#[test]
fn delta_round_trips_through_the_store() {
    let dir = tempfile::tempdir().expect("tempdir");
    let mut store = test_store(dir.path());
    let key = KvKey::new(KvNamespace::Track, String::from("album1-01-01:tag"));

    let delta = sample_delta();
    store.store(&key, &delta).expect("store");
    let fetched = store.load::<TagDelta>(&key).expect("load");
    assert_eq!(fetched, Some(delta));
}

#[test]
fn scan_prefix_returns_matches() {
    let dir = tempfile::tempdir().expect("tempdir");
    let mut store = test_store(dir.path());

    for idx in 1u64..=3 {
        let key = KvKey::new(KvNamespace::Track, format!("album1-01-{idx:02}"));
        store.store(&key, &idx).expect("store");
    }
    let other = KvKey::new(KvNamespace::Track, String::from("album2-01-01"));
    store.store(&other, &9u64).expect("store");

    let results = store
        .backend()
        .scan_prefix(KvNamespace::Track, &String::from("album1-01"))
        .expect("scan");
    assert_eq!(results.len(), 3);
}

#[test]
fn load_of_absent_key_is_none() {
    let dir = tempfile::tempdir().expect("tempdir");
    let store = test_store(dir.path());
    let key = KvKey::new(KvNamespace::Cache, String::from("nothing"));
    assert_eq!(store.load::<u64>(&key).expect("load"), None);
}

#[test]
fn remove_deletes_the_value() {
    let dir = tempfile::tempdir().expect("tempdir");
    let mut store = test_store(dir.path());
    let key = KvKey::new(KvNamespace::Policy, String::from("x"));
    store.store(&key, &7u64).expect("store");
    store.remove(&key).expect("remove");
    assert_eq!(store.load::<u64>(&key).expect("load"), None);
}

#[test]
fn namespaces_are_isolated() {
    let dir = tempfile::tempdir().expect("tempdir");
    let mut store = test_store(dir.path());
    let a = KvKey::new(KvNamespace::Track, String::from("k"));
    let b = KvKey::new(KvNamespace::Album, String::from("k"));
    store.store(&a, &1u64).expect("store");
    store.store(&b, &2u64).expect("store");
    assert_eq!(store.load::<u64>(&a).expect("load"), Some(1));
    assert_eq!(store.load::<u64>(&b).expect("load"), Some(2));
    store.remove(&a).expect("remove");
    assert_eq!(store.load::<u64>(&b).expect("load"), Some(2));
}

#[test]
fn codec_round_trips_in_memory() {
    let delta = sample_delta();
    let bytes = delta.encode();
    let back = TagDelta::decode(&bytes).expect("decode");
    assert_eq!(back, delta);

    let metadata = TrackMetadata {
        id: TrackId {
            album: AlbumId(String::from("al")),
            disc: 2,
            index: 9,
        },
        title: String::from("Größe"),
        artist: String::from("A"),
        album_artist: Some(String::from("AA")),
        duration_ms: 77,
        tags: TagMap(vec![(String::from("K"), TagValue::FloatBits(42))]),
        artwork: Some(musfuse::metadata::ArtworkRef {
            hash: String::from("h"),
            mime: String::from("image/jpeg"),
            size: 3,
        }),
    };
    let mb = metadata.encode();
    assert_eq!(TrackMetadata::decode(&mb), Some(metadata));

    let x: u64 = 1234567890123;
    let bx = x.encode();
    assert_eq!(u64::decode(&bx), Some(x));
    assert_eq!(u64::decode(&vec![1, 2, 3]), None);
}

#[test]
fn corrupt_bytes_do_not_decode() {
    let delta = sample_delta();
    let mut bytes = delta.encode();
    bytes.push(0);
    assert_eq!(TagDelta::decode(&bytes), None);
}

#[test]
fn kv_key_renders_with_namespace_prefix() {
    let key = KvKey::new(KvNamespace::FileStat, String::from("a/b"));
    assert_eq!(key.as_str(), "file:a/b");
    assert_eq!(KvNamespace::Artwork.name(), "artwork");
}
