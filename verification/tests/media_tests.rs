use musfuse::config::{LosslessStrategy, PolicyConfig};
use musfuse::media::{
    DecodeSelector, DecodedAudio, DefaultCoverExtractor, DefaultFormatTranscoder, PictureInfo,
    DEFAULT_CHUNK_SIZE,
};
use musfuse::metadata::{AlbumId, TrackId};
use musfuse::policy::AudioFormatPolicy;
use musfuse::track::SourceTrack;

fn make_track(path: &str) -> SourceTrack {
    SourceTrack {
        id: TrackId { album: AlbumId(String::from("album")), disc: 1, index: 1 },
        path: String::from(path),
        cue_path: None,
        offset_frames: 0,
        length_frames: 0,
        sample_rate: 44_100,
        channels: 2,
    }
}

fn test_wav_bytes() -> Vec<u8> {
    let spec = hound::WavSpec {
        channels: 2,
        sample_rate: 44_100,
        bits_per_sample: 16,
        sample_format: hound::SampleFormat::Int,
    };
    let mut cursor = std::io::Cursor::new(Vec::new());
    {
        let mut writer = hound::WavWriter::new(&mut cursor, spec).expect("create wav");
        for _ in 0..1_000 {
            writer.write_sample(0i16).expect("write left");
            writer.write_sample(0i16).expect("write right");
        }
        writer.finalize().expect("finalize wav");
    }
    cursor.into_inner()
}

#[test]
fn passthrough_lossless_returns_original_wav() {
    let data = test_wav_bytes();
    let original = data.clone();

    let transcoder = DefaultFormatTranscoder::new();
    let track = make_track("/music/sample.wav");
    let result = transcoder.passthrough(&track, data);

    assert_eq!(result.track_id, track.id);
    assert_eq!(result.format, "wav");
    assert_eq!(result.chunks.len(), 1);
    assert!(result.chunks[0].data.starts_with(b"RIFF"));
    assert_eq!(result.chunks[0].data, original);
    assert!(result.chunks[0].is_end);
}

#[test]
fn convert_lossless_outputs_flac() {
    let decoded = DecodedAudio {
        samples: vec![0i32; 2_000],
        sample_rate: 44_100,
        channels: 2,
        bits_per_sample: 16,
    };

    let transcoder = DefaultFormatTranscoder::new();
    let track = make_track("/music/sample.wav");
    let result = transcoder.convert_lossless(&track, decoded).expect("transcode");

    assert_eq!(result.track_id, track.id);
    assert_eq!(result.format, "flac");
    assert_eq!(result.chunks.len(), 1);
    let data = &result.chunks[0].data;
    assert!(data.starts_with(b"fLaC"));
    assert!(result.chunks[0].is_end);

    // The STREAMINFO block declares the source geometry: sample rate in
    // twenty bits, channel count minus one in three.
    let sample_rate =
        ((data[18] as u32) << 12) | ((data[19] as u32) << 4) | ((data[20] as u32) >> 4);
    let channels = ((data[20] >> 1) & 0x7) + 1;
    assert_eq!(sample_rate, 44_100);
    assert_eq!(channels, 2);
}

#[test]
fn chunk_bytes_splits_data_into_multiple_chunks() {
    let data = vec![1u8; DEFAULT_CHUNK_SIZE * 2 + 10];
    let chunks =
        DefaultFormatTranscoder::chunk_bytes(data, DEFAULT_CHUNK_SIZE, Some(44_100), Some(2), Some(16));

    assert_eq!(chunks.len(), 3);
    assert_eq!(chunks.iter().filter(|chunk| chunk.is_end).count(), 1);
    assert!(
        chunks.first().map(|c| c.timestamp_ms).unwrap_or_default()
            <= chunks.last().map(|c| c.timestamp_ms).unwrap_or_default()
    );
}

#[test]
fn chunking_concatenates_back_to_the_input() {
    let data: Vec<u8> = (0..100_000u32).map(|i| (i % 251) as u8).collect();
    let chunks = DefaultFormatTranscoder::chunk_bytes(data.clone(), 4096, None, None, None);
    let mut glued = Vec::new();
    for c in &chunks {
        glued.extend_from_slice(&c.data);
    }
    assert_eq!(glued, data);
    assert!(chunks.last().unwrap().is_end);
}

#[test]
fn empty_input_yields_no_chunks() {
    let chunks = DefaultFormatTranscoder::chunk_bytes(
        Vec::new(),
        DEFAULT_CHUNK_SIZE,
        Some(44_100),
        Some(2),
        Some(16),
    );
    assert!(chunks.is_empty());
}

#[test]
fn selector_takes_the_requested_frame_range() {
    let mut sel = DecodeSelector::new(2, 3, 1);
    let done1 = sel.on_packet(&vec![0, 1, 2]);
    assert!(!done1);
    let done2 = sel.on_packet(&vec![3, 4, 5]);
    assert!(done2);
    let samples = sel.finish().expect("samples in range");
    assert_eq!(samples, vec![2, 3, 4]);
}

#[test]
fn selector_with_zero_length_reads_to_stream_end() {
    let mut sel = DecodeSelector::new(1, 0, 2);
    let done = sel.on_packet(&vec![10, 11, 20, 21, 30, 31]);
    assert!(!done);
    let samples = sel.finish().expect("samples");
    assert_eq!(samples, vec![20, 21, 30, 31]);
}

#[test]
fn selector_with_no_usable_samples_is_an_error() {
    let sel = DecodeSelector::new(100, 10, 2);
    let err = sel.finish().expect_err("no audio");
    assert_eq!(err.message(), "media error: no audio samples decoded");
}

#[test]
fn policy_follows_extension_and_strategy() {
    let convert = PolicyConfig {
        lossless_strategy: LosslessStrategy::ConvertToFlac,
        lossy_passthrough: true,
    };
    let pass = PolicyConfig {
        lossless_strategy: LosslessStrategy::Passthrough,
        lossy_passthrough: true,
    };
    assert_eq!(
        AudioFormatPolicy::from_extension("MP3", &convert),
        AudioFormatPolicy::PassthroughLossy
    );
    assert_eq!(
        AudioFormatPolicy::from_extension("flac", &convert),
        AudioFormatPolicy::ConvertLossless
    );
    assert_eq!(
        AudioFormatPolicy::from_extension("flac", &pass),
        AudioFormatPolicy::PassthroughLossless
    );
    assert_eq!(
        AudioFormatPolicy::from_extension("opus", &pass),
        AudioFormatPolicy::PassthroughLossy
    );
}

#[test]
fn extension_of_maps_known_containers() {
    assert_eq!(DefaultFormatTranscoder::extension_of(&make_track("/a/b.FLAC")), "flac");
    assert_eq!(DefaultFormatTranscoder::extension_of(&make_track("/a/b.wav")), "wav");
    assert_eq!(DefaultFormatTranscoder::extension_of(&make_track("/a/b.xyz")), "bin");
    assert_eq!(DefaultFormatTranscoder::extension_of(&make_track("/a/noext")), "bin");
    assert_eq!(DefaultFormatTranscoder::extension_of(&make_track("/a/.hidden")), "bin");
}

#[test]
fn front_cover_wins_over_earlier_fallback() {
    let pics = vec![
        PictureInfo { is_front: false, data: vec![] },
        PictureInfo { is_front: false, data: vec![9, 9] },
        PictureInfo { is_front: true, data: vec![1, 2, 3] },
    ];
    assert_eq!(DefaultCoverExtractor::select_picture(&pics), Some(vec![1, 2, 3]));

    let no_front = vec![
        PictureInfo { is_front: false, data: vec![] },
        PictureInfo { is_front: false, data: vec![7] },
    ];
    assert_eq!(DefaultCoverExtractor::select_picture(&no_front), Some(vec![7]));

    let nothing = vec![PictureInfo { is_front: true, data: vec![] }];
    assert_eq!(DefaultCoverExtractor::select_picture(&nothing), None);
}

#[test]
fn candidate_paths_enumerate_conventional_names() {
    let stem = String::from("track");
    let paths = DefaultCoverExtractor::candidate_paths(&String::from("/music"), Some(&stem));
    assert_eq!(paths.len(), 12);
    assert_eq!(paths[0], "/music/cover.jpg");
    assert_eq!(paths[7], "/music/AlbumArtSmall.jpg");
    assert_eq!(paths[8], "/music/track.jpg");
    assert_eq!(paths[11], "/music/track.webp");
    let bare = DefaultCoverExtractor::candidate_paths(&String::from("/music"), None);
    assert_eq!(bare.len(), 8);
}
