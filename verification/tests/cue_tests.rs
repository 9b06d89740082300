use musfuse::cue::{frames_to_ms, timestamp_to_frames, CueFile, CueParser, CueSheet, CueTrack};
use musfuse::error::MusFuseError;
use musfuse::metadata::AlbumId;
use musfuse::text::to_chars;
use musfuse::track::TrackMapper;

#[test]
fn parse_simple_cue() {
    let cue = r#"
        TITLE "Album"
        PERFORMER "Artist"
        FILE "disc.flac" WAVE
          TRACK 01 AUDIO
            TITLE "Intro"
            PERFORMER "Artist"
            INDEX 01 00:00:00
          TRACK 02 AUDIO
            TITLE "Song"
            INDEX 01 03:15:00
        "#;

    let parser = CueParser;
    let sheet = parser.parse_str(cue, "/music").unwrap();
    assert_eq!(sheet.files.len(), 1);
    let file = &sheet.files[0];
    assert_eq!(file.path, "/music/disc.flac");
    assert_eq!(file.tracks.len(), 2);
    assert_eq!(file.tracks[1].index_01_frames, 3 * 60 * 75 + 15 * 75);
}

#[test]
fn map_cue_to_track_index() {
    let sheet = CueSheet {
        album_title: Some("Album".into()),
        album_performer: Some("Artist".into()),
        files: vec![CueFile {
            path: "/music/disc.flac".into(),
            tracks: vec![
                CueTrack {
                    number: 1,
                    title: Some("Intro".into()),
                    performer: Some("Artist".into()),
                    index_01_frames: 0,
                },
                CueTrack {
                    number: 2,
                    title: Some("Song".into()),
                    performer: None,
                    index_01_frames: 75 * 120,
                },
            ],
        }],
    };

    let album = AlbumId("album".into());
    let cue_path = String::from("/music/disc.cue");
    let index = TrackMapper::from_cue(&sheet, &album, Some(&cue_path));
    assert_eq!(index.entries.len(), 2);
    let second = &index.entries[1];
    assert_eq!(second.metadata.title, "Song");
    assert_eq!(second.metadata.artist, "Artist");
    assert_eq!(second.source.path, "/music/disc.flac");
    assert_eq!(second.source.cue_path.as_deref(), Some("/music/disc.cue"));
}

#[test]
fn mapped_lengths_follow_next_track_start() {
    let sheet = CueSheet {
        album_title: None,
        album_performer: None,
        files: vec![CueFile {
            path: "/m/d.flac".into(),
            tracks: vec![
                CueTrack {
                    number: 1,
                    title: None,
                    performer: None,
                    index_01_frames: 0,
                },
                CueTrack {
                    number: 2,
                    title: None,
                    performer: None,
                    index_01_frames: 9000,
                },
            ],
        }],
    };
    let album = AlbumId("a".into());
    let index = TrackMapper::from_cue(&sheet, &album, None);
    assert_eq!(index.entries[0].source.length_frames, 9000);
    assert_eq!(index.entries[1].source.length_frames, 0);
}

#[test]
fn mapper_defaults_title_and_artist() {
    let sheet = CueSheet {
        album_title: None,
        album_performer: None,
        files: vec![CueFile {
            path: "/m/d.flac".into(),
            tracks: vec![CueTrack {
                number: 7,
                title: None,
                performer: None,
                index_01_frames: 0,
            }],
        }],
    };
    let album = AlbumId("a".into());
    let index = TrackMapper::from_cue(&sheet, &album, None);
    assert_eq!(index.entries[0].metadata.title, "Track 07");
    assert_eq!(index.entries[0].metadata.artist, "Unknown Artist");
    assert_eq!(index.entries[0].source.sample_rate, 44_100);
    assert_eq!(index.entries[0].source.channels, 2);
}

#[test]
fn timestamp_round_trips_to_milliseconds() {
    let frames = timestamp_to_frames(&to_chars("02:03:10")).unwrap();
    assert_eq!(frames, 2 * 60 * 75 + 3 * 75 + 10);
    let ms = frames_to_ms(frames);
    assert_eq!(ms, (2 * 60 + 3) * 1000 + 10 * 1000 / 75);
}

#[test]
fn malformed_timestamps_are_rejected() {
    assert_eq!(
        timestamp_to_frames(&to_chars("00:00")),
        Err(MusFuseError::Mount("invalid timestamp".into()))
    );
    assert_eq!(
        timestamp_to_frames(&to_chars("ab:00:00")),
        Err(MusFuseError::Mount("invalid minutes".into()))
    );
    assert_eq!(
        timestamp_to_frames(&to_chars("00:xx:00")),
        Err(MusFuseError::Mount("invalid seconds".into()))
    );
    assert_eq!(
        timestamp_to_frames(&to_chars("00:00:")),
        Err(MusFuseError::Mount("invalid frames".into()))
    );
}

#[test]
fn malformed_directives_are_rejected() {
    let parser = CueParser;
    let no_name = parser.parse_str("FILE \"\" WAVE", "/m");
    assert_eq!(
        no_name,
        Err(MusFuseError::Mount("invalid FILE entry".into()))
    );

    let orphan_track = parser.parse_str("TRACK 01 AUDIO", "/m");
    assert_eq!(
        orphan_track,
        Err(MusFuseError::Mount(
            "TRACK directive without a preceding FILE".into()
        ))
    );

    let bad_number = parser.parse_str("FILE \"d.flac\" WAVE\nTRACK xx AUDIO", "/m");
    assert_eq!(
        bad_number,
        Err(MusFuseError::Mount("invalid track number".into()))
    );
}

#[test]
fn out_of_order_index_is_rejected() {
    let parser = CueParser;
    let cue = "FILE \"d.flac\" WAVE\nTRACK 01 AUDIO\nINDEX 01 00:02:00\nTRACK 02 AUDIO\nINDEX 01 00:01:00";
    assert_eq!(
        parser.parse_str(cue, "/m"),
        Err(MusFuseError::Mount("INDEX 01 out of order".into()))
    );

    // Equal starts stay accepted: the mapper gives such a track length
    // zero, meaning read-to-end.
    let equal = "FILE \"d.flac\" WAVE\nTRACK 01 AUDIO\nINDEX 01 00:01:00\nTRACK 02 AUDIO\nINDEX 01 00:01:00";
    assert!(parser.parse_str(equal, "/m").is_ok());
}

#[test]
fn rem_and_unknown_lines_are_ignored() {
    let parser = CueParser;
    let sheet = parser
        .parse_str("REM COMMENT hi\nSONGWRITER \"x\"\nFILE \"d.flac\" WAVE\nTRACK 01 AUDIO\nINDEX 01 00:01:00", "/m")
        .unwrap();
    assert_eq!(sheet.files.len(), 1);
    assert_eq!(sheet.files[0].tracks.len(), 1);
    assert_eq!(sheet.files[0].tracks[0].index_01_frames, 75);
}

#[test]
fn titles_attach_to_album_without_open_track() {
    let parser = CueParser;
    let sheet = parser.parse_str("TITLE \"A\"\nPERFORMER \"P\"", "/m").unwrap();
    assert_eq!(sheet.album_title.as_deref(), Some("A"));
    assert_eq!(sheet.album_performer.as_deref(), Some("P"));
    assert!(sheet.files.is_empty());
}
