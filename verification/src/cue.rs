//! CUE sheet parsing: line-oriented directives turned into a structured
//! sheet, and the frame arithmetic of CD timestamps.

use vstd::prelude::*;

use crate::arith::{lemma_mul_exceeds, lemma_mul_within};
use crate::error::MusFuseError;
use crate::text::{
    chars_to_string, find_char, first_token, has_prefix, join_path, last_token, parse_u32,
    parse_u64, spec_find, spec_first_token, spec_join_path, spec_last_token, spec_parse_u32,
    spec_parse_u64, spec_split, spec_trim, spec_trim_char, split_chars, starts_with, subchars,
    to_chars, trim, trim_char,
};

verus! {

/// One track of a CUE file: its number, optional title and performer, and
/// the frame offset of its `INDEX 01` entry.
#[derive(Debug, PartialEq, Clone)]
pub struct CueTrack {
    pub number: u32,
    pub title: Option<String>,
    pub performer: Option<String>,
    pub index_01_frames: u64,
}

/// One physical file of a CUE sheet with its tracks, in the order they were
/// encountered.
#[derive(Debug, PartialEq, Clone)]
pub struct CueFile {
    pub path: String,
    pub tracks: Vec<CueTrack>,
}

/// A parsed CUE sheet: album-level title and performer, and the files.
#[derive(Debug, PartialEq, Clone)]
pub struct CueSheet {
    pub album_title: Option<String>,
    pub album_performer: Option<String>,
    pub files: Vec<CueFile>,
}

/// The mathematical value of an optional string.
pub open spec fn opt_str_view(o: Option<String>) -> Option<Seq<char>> {
    match o {
        None => None,
        Some(s) => Some(s@),
    }
}

/// The mathematical value of a `CueTrack`.
pub struct CueTrackV {
    pub number: u32,
    pub title: Option<Seq<char>>,
    pub performer: Option<Seq<char>>,
    pub index_01_frames: u64,
}

impl View for CueTrack {
    type V = CueTrackV;

    open spec fn view(&self) -> CueTrackV {
        CueTrackV {
            number: self.number,
            title: opt_str_view(self.title),
            performer: opt_str_view(self.performer),
            index_01_frames: self.index_01_frames,
        }
    }
}

/// The mathematical value of a `CueFile`.
pub struct CueFileV {
    pub path: Seq<char>,
    pub tracks: Seq<CueTrackV>,
}

impl View for CueFile {
    type V = CueFileV;

    open spec fn view(&self) -> CueFileV {
        CueFileV {
            path: self.path@,
            tracks: Seq::new(self.tracks@.len(), |i: int| self.tracks@[i]@),
        }
    }
}

/// The mathematical value of a `CueSheet`.
pub struct CueSheetV {
    pub album_title: Option<Seq<char>>,
    pub album_performer: Option<Seq<char>>,
    pub files: Seq<CueFileV>,
}

impl View for CueSheet {
    type V = CueSheetV;

    open spec fn view(&self) -> CueSheetV {
        CueSheetV {
            album_title: opt_str_view(self.album_title),
            album_performer: opt_str_view(self.album_performer),
            files: Seq::new(self.files@.len(), |i: int| self.files@[i]@),
        }
    }
}

/// Milliseconds corresponding to a count of CD frames, at 75 frames per
/// second, truncating.
pub open spec fn spec_frames_to_ms(frames: nat) -> nat {
    frames * 1000 / 75
}

/// Converts CD frames to milliseconds: `frames * 1000 / 75`, truncating.
/// The requirement keeps the product inside a `u64`.
pub fn frames_to_ms(frames: u64) -> (r: u64)
    requires
        frames <= u64::MAX as int / 1000,
    ensures
        r == spec_frames_to_ms(frames as nat),
{
    proof {
        lemma_mul_within(frames as int, 1000, u64::MAX as int);
    }
    (frames * 1000) / 75
}

impl CueTrack {
    /// Where this track starts, in milliseconds.
    pub fn start_ms(&self) -> (r: u64)
        requires
            self.index_01_frames <= u64::MAX as int / 1000,
        ensures
            r == spec_frames_to_ms(self.index_01_frames as nat),
    {
        frames_to_ms(self.index_01_frames)
    }
}

/// What a `mm:ss:ff` timestamp denotes: `mm*60*75 + ss*75 + ff` frames.
/// Each malformed shape is rejected with the message naming it; a value
/// beyond `u64` is rejected as an invalid timestamp.
pub open spec fn spec_timestamp_to_frames(s: Seq<char>) -> Result<u64, Seq<char>> {
    if spec_split(s, ':').len() != 3 {
        Err("invalid timestamp"@)
    } else {
        match spec_parse_u64(spec_split(s, ':')[0]) {
            None => Err("invalid minutes"@),
            Some(m) => match spec_parse_u64(spec_split(s, ':')[1]) {
                None => Err("invalid seconds"@),
                Some(sec) => match spec_parse_u64(spec_split(s, ':')[2]) {
                    None => Err("invalid frames"@),
                    Some(f) => if m * 4500 + sec * 75 + f > u64::MAX {
                        Err("invalid timestamp"@)
                    } else {
                        Ok((m * 4500 + sec * 75 + f) as u64)
                    },
                },
            },
        }
    }
}

/// Parses a `mm:ss:ff` timestamp into CD frames.
pub fn timestamp_to_frames(value: &Vec<char>) -> (r: Result<u64, MusFuseError>)
    ensures
        match r {
            Ok(v) => spec_timestamp_to_frames(value@) == Ok::<u64, Seq<char>>(v),
            Err(MusFuseError::Mount(m)) => spec_timestamp_to_frames(value@) == Err::<
                u64,
                Seq<char>,
            >(m@),
            Err(_) => false,
        },
{
    let parts = split_chars(value, ':');
    proof {
        assert(parts.deep_view().len() == parts@.len());
    }
    if parts.len() != 3 {
        return Err(MusFuseError::Mount(String::from_str("invalid timestamp")));
    }
    proof {
        assert(parts.deep_view()[0] == parts@[0]@);
        assert(parts.deep_view()[1] == parts@[1]@);
        assert(parts.deep_view()[2] == parts@[2]@);
    }
    let m = match parse_u64(&parts[0]) {
        Some(m) => m,
        None => {
            return Err(MusFuseError::Mount(String::from_str("invalid minutes")));
        },
    };
    let sec = match parse_u64(&parts[1]) {
        Some(sec) => sec,
        None => {
            return Err(MusFuseError::Mount(String::from_str("invalid seconds")));
        },
    };
    let f = match parse_u64(&parts[2]) {
        Some(f) => f,
        None => {
            return Err(MusFuseError::Mount(String::from_str("invalid frames")));
        },
    };
    if m > u64::MAX / 4500 {
        proof {
            lemma_mul_exceeds(m as int, 4500, u64::MAX as int);
        }
        return Err(MusFuseError::Mount(String::from_str("invalid timestamp")));
    }
    proof {
        lemma_mul_within(m as int, 4500, u64::MAX as int);
    }
    let a: u64 = m * 4500;
    if sec > (u64::MAX - a) / 75 {
        proof {
            lemma_mul_exceeds(sec as int, 75, u64::MAX as int - a as int);
        }
        return Err(MusFuseError::Mount(String::from_str("invalid timestamp")));
    }
    proof {
        lemma_mul_within(sec as int, 75, u64::MAX as int - a as int);
    }
    let b: u64 = a + sec * 75;
    if f > u64::MAX - b {
        return Err(MusFuseError::Mount(String::from_str("invalid timestamp")));
    }
    Ok(b + f)
}

/// The text between the first two double quotes of `s`, as the original
/// directives carry their values.
pub open spec fn spec_extract_quoted(s: Seq<char>) -> Option<Seq<char>> {
    match spec_find(s, '"', 0) {
        None => None,
        Some(i) => match spec_find(s, '"', i + 1) {
            None => None,
            Some(j) => Some(s.subrange(i + 1, j)),
        },
    }
}

/// Extracts the text between the first two double quotes of `v`.
pub fn extract_quoted(v: &Vec<char>) -> (r: Option<Vec<char>>)
    ensures
        match r {
            Some(q) => spec_extract_quoted(v@) == Some(q@),
            None => spec_extract_quoted(v@).is_none(),
        },
{
    let n = v.len();
    match find_char(v, '"', 0) {
        None => None,
        Some(i) => {
            match find_char(v, '"', i + 1) {
                None => None,
                Some(j) => Some(subchars(v, i + 1, j)),
            }
        },
    }
}

/// The parser's running state: the album fields gathered so far, the files
/// already closed, and the file and track sections still open.
pub struct ParseStateV {
    pub album_title: Option<Seq<char>>,
    pub album_performer: Option<Seq<char>>,
    pub files: Seq<CueFileV>,
    pub cur_file: Option<CueFileV>,
    pub cur_track: Option<CueTrackV>,
}

/// The state before any line is read.
pub open spec fn init_state() -> ParseStateV {
    ParseStateV {
        album_title: None,
        album_performer: None,
        files: Seq::empty(),
        cur_file: None,
        cur_track: None,
    }
}

/// Closes an open track section: the track is appended to the open file.
pub open spec fn spec_close_track(st: ParseStateV) -> ParseStateV {
    match (st.cur_track, st.cur_file) {
        (Some(t), Some(f)) => ParseStateV {
            album_title: st.album_title,
            album_performer: st.album_performer,
            files: st.files,
            cur_file: Some(CueFileV { path: f.path, tracks: f.tracks.push(t) }),
            cur_track: None,
        },
        (Some(_t), None) => ParseStateV {
            album_title: st.album_title,
            album_performer: st.album_performer,
            files: st.files,
            cur_file: None,
            cur_track: None,
        },
        (None, _) => st,
    }
}

/// Whether the open track may close into the open file: its `INDEX 01`
/// must not precede the previous track's, or the sheet would describe a
/// negative-length track.
pub open spec fn track_in_order(st: ParseStateV) -> bool {
    match (st.cur_track, st.cur_file) {
        (Some(t), Some(f)) => f.tracks.len() == 0 || f.tracks.last().index_01_frames
            <= t.index_01_frames,
        _ => true,
    }
}

/// Closes an open file section: the file is appended to the sheet.
pub open spec fn spec_close_file(st: ParseStateV) -> ParseStateV {
    match st.cur_file {
        Some(f) => ParseStateV {
            album_title: st.album_title,
            album_performer: st.album_performer,
            files: st.files.push(f),
            cur_file: None,
            cur_track: st.cur_track,
        },
        None => st,
    }
}

/// What a `FILE` directive does: the open track and file sections close,
/// and a new file opens under the quoted name resolved against `base_dir`.
/// A missing name is rejected.
pub open spec fn step_file(st: ParseStateV, rest: Seq<char>, base_dir: Seq<char>) -> Result<
    ParseStateV,
    Seq<char>,
> {
    let rt = spec_trim(rest);
    let p1 = match spec_find(rt, ' ', 0) {
        Some(k) => rt.subrange(0, k),
        None => rt,
    };
    let name = spec_trim_char(p1, '"');
    if name.len() == 0 {
        Err("invalid FILE entry"@)
    } else if !track_in_order(st) {
        Err("INDEX 01 out of order"@)
    } else {
        let st1 = spec_close_file(spec_close_track(st));
        Ok(
            ParseStateV {
                album_title: st1.album_title,
                album_performer: st1.album_performer,
                files: st1.files,
                cur_file: Some(
                    CueFileV { path: spec_join_path(base_dir, name), tracks: Seq::empty() },
                ),
                cur_track: None,
            },
        )
    }
}

/// What a `TRACK` directive does: it must stand under a `FILE`, the open
/// track closes, and a new track opens under the given number. A missing
/// or malformed number is rejected.
pub open spec fn step_track(st: ParseStateV, rest: Seq<char>) -> Result<ParseStateV, Seq<char>> {
    if st.cur_file.is_none() {
        Err("TRACK directive without a preceding FILE"@)
    } else {
        match spec_first_token(spec_trim(rest)) {
            None => Err("missing track number"@),
            Some(tok) => match spec_parse_u32(tok) {
                None => Err("invalid track number"@),
                Some(n) => if !track_in_order(st) {
                    Err("INDEX 01 out of order"@)
                } else {
                    let st1 = spec_close_track(st);
                    Ok(
                        ParseStateV {
                            album_title: st1.album_title,
                            album_performer: st1.album_performer,
                            files: st1.files,
                            cur_file: st1.cur_file,
                            cur_track: Some(
                                CueTrackV {
                                    number: n,
                                    title: None,
                                    performer: None,
                                    index_01_frames: 0,
                                },
                            ),
                        },
                    )
                },
            },
        }
    }
}

/// What a `TITLE` directive does: the quoted value (empty when no quoted
/// text is present) attaches to the open track, else to the album.
pub open spec fn step_title(st: ParseStateV, t: Seq<char>) -> ParseStateV {
    let value = match spec_extract_quoted(t) {
        Some(v) => v,
        None => Seq::empty(),
    };
    match st.cur_track {
        Some(tr) => ParseStateV {
            album_title: st.album_title,
            album_performer: st.album_performer,
            files: st.files,
            cur_file: st.cur_file,
            cur_track: Some(
                CueTrackV {
                    number: tr.number,
                    title: Some(value),
                    performer: tr.performer,
                    index_01_frames: tr.index_01_frames,
                },
            ),
        },
        None => ParseStateV {
            album_title: Some(value),
            album_performer: st.album_performer,
            files: st.files,
            cur_file: st.cur_file,
            cur_track: st.cur_track,
        },
    }
}

/// What a `PERFORMER` directive does: as `TITLE`, for the performer field.
pub open spec fn step_performer(st: ParseStateV, t: Seq<char>) -> ParseStateV {
    let value = match spec_extract_quoted(t) {
        Some(v) => v,
        None => Seq::empty(),
    };
    match st.cur_track {
        Some(tr) => ParseStateV {
            album_title: st.album_title,
            album_performer: st.album_performer,
            files: st.files,
            cur_file: st.cur_file,
            cur_track: Some(
                CueTrackV {
                    number: tr.number,
                    title: tr.title,
                    performer: Some(value),
                    index_01_frames: tr.index_01_frames,
                },
            ),
        },
        None => ParseStateV {
            album_title: st.album_title,
            album_performer: Some(value),
            files: st.files,
            cur_file: st.cur_file,
            cur_track: st.cur_track,
        },
    }
}

/// What an `INDEX 01` directive does: its last whitespace-separated token
/// is the timestamp; with a track open it becomes the track's start, else
/// the line is ignored. A malformed timestamp under an open track is
/// rejected.
pub open spec fn step_index(st: ParseStateV, t: Seq<char>) -> Result<ParseStateV, Seq<char>> {
    match spec_last_token(t) {
        None => Err("missing index timestamp"@),
        Some(ts) => match st.cur_track {
            None => Ok(st),
            Some(tr) => match spec_timestamp_to_frames(ts) {
                Err(e) => Err(e),
                Ok(fr) => Ok(
                    ParseStateV {
                        album_title: st.album_title,
                        album_performer: st.album_performer,
                        files: st.files,
                        cur_file: st.cur_file,
                        cur_track: Some(
                            CueTrackV {
                                number: tr.number,
                                title: tr.title,
                                performer: tr.performer,
                                index_01_frames: fr,
                            },
                        ),
                    },
                ),
            },
        },
    }
}

/// What one line does to the parser state. Blank lines, `REM` lines and
/// unrecognized directives change nothing.
pub open spec fn step_line(st: ParseStateV, line: Seq<char>, base_dir: Seq<char>) -> Result<
    ParseStateV,
    Seq<char>,
> {
    let t = spec_trim(line);
    if t.len() == 0 || has_prefix(t, "REM"@) {
        Ok(st)
    } else if has_prefix(t, "FILE"@) {
        step_file(st, t.subrange(4, t.len() as int), base_dir)
    } else if has_prefix(t, "TRACK"@) {
        step_track(st, t.subrange(5, t.len() as int))
    } else if has_prefix(t, "TITLE"@) {
        Ok(step_title(st, t))
    } else if has_prefix(t, "PERFORMER"@) {
        Ok(step_performer(st, t))
    } else if has_prefix(t, "INDEX 01"@) {
        step_index(st, t)
    } else {
        Ok(st)
    }
}

/// The parser state after the lines from `i` on, starting from `st`.
pub open spec fn run_lines(
    st: ParseStateV,
    lines: Seq<Seq<char>>,
    i: int,
    base_dir: Seq<char>,
) -> Result<ParseStateV, Seq<char>>
    decreases lines.len() - i,
{
    if i < 0 || i >= lines.len() {
        Ok(st)
    } else {
        match step_line(st, lines[i], base_dir) {
            Err(e) => Err(e),
            Ok(st2) => run_lines(st2, lines, i + 1, base_dir),
        }
    }
}

/// At end of input the open track and file sections close — rejecting an
/// out-of-order final track — and the sheet is what accumulated.
pub open spec fn spec_finalize(st: ParseStateV) -> Result<CueSheetV, Seq<char>> {
    if !track_in_order(st) {
        Err("INDEX 01 out of order"@)
    } else {
        let st1 = spec_close_file(spec_close_track(st));
        Ok(
            CueSheetV {
                album_title: st1.album_title,
                album_performer: st1.album_performer,
                files: st1.files,
            },
        )
    }
}

/// What parsing a whole CUE text yields: the lines (split at newlines) run
/// through the directive machine, then the final sections close.
pub open spec fn spec_parse_cue(content: Seq<char>, base_dir: Seq<char>) -> Result<
    CueSheetV,
    Seq<char>,
> {
    match run_lines(init_state(), spec_split(content, '\n'), 0, base_dir) {
        Err(e) => Err(e),
        Ok(st) => spec_finalize(st),
    }
}

/// The parser's running state, executably.
pub struct ParseState {
    pub album_title: Option<String>,
    pub album_performer: Option<String>,
    pub files: Vec<CueFile>,
    pub cur_file: Option<CueFile>,
    pub cur_track: Option<CueTrack>,
}

/// The mathematical value of an optional open file section.
pub open spec fn opt_file_view(o: Option<CueFile>) -> Option<CueFileV> {
    match o {
        None => None,
        Some(f) => Some(f@),
    }
}

/// The mathematical value of an optional open track section.
pub open spec fn opt_track_view(o: Option<CueTrack>) -> Option<CueTrackV> {
    match o {
        None => None,
        Some(t) => Some(t@),
    }
}

impl View for ParseState {
    type V = ParseStateV;

    open spec fn view(&self) -> ParseStateV {
        ParseStateV {
            album_title: opt_str_view(self.album_title),
            album_performer: opt_str_view(self.album_performer),
            files: Seq::new(self.files@.len(), |i: int| self.files@[i]@),
            cur_file: opt_file_view(self.cur_file),
            cur_track: opt_track_view(self.cur_track),
        }
    }
}

/// Whether the open track may close into the open file.
fn track_ordered(st: &ParseState) -> (r: bool)
    ensures
        r == track_in_order(st@),
{
    match (&st.cur_track, &st.cur_file) {
        (Some(t), Some(f)) => {
            let n = f.tracks.len();
            if n == 0 {
                true
            } else {
                proof {
                    assert(st@.cur_file->Some_0.tracks.last() == f.tracks@[n - 1]@);
                }
                f.tracks[n - 1].index_01_frames <= t.index_01_frames
            }
        },
        _ => true,
    }
}

fn close_track(st: ParseState) -> (r: ParseState)
    ensures
        r@ == spec_close_track(st@),
{
    let ParseState { album_title, album_performer, files, cur_file, cur_track } = st;
    match (cur_track, cur_file) {
        (Some(t), Some(f)) => {
            let CueFile { path, tracks } = f;
            let mut tracks = tracks;
            let ghost old_tracks = tracks@;
            tracks.push(t);
            let r = ParseState {
                album_title,
                album_performer,
                files,
                cur_file: Some(CueFile { path, tracks }),
                cur_track: None,
            };
            proof {
                let fv = spec_close_track(st@).cur_file->Some_0;
                assert(r@.cur_file->Some_0.tracks =~= fv.tracks);
                assert(r@.files =~= spec_close_track(st@).files);
            }
            r
        },
        (Some(_t), None) => {
            let r = ParseState {
                album_title,
                album_performer,
                files,
                cur_file: None,
                cur_track: None,
            };
            proof {
                assert(r@.files =~= spec_close_track(st@).files);
            }
            r
        },
        (None, cf) => {
            let r = ParseState {
                album_title,
                album_performer,
                files,
                cur_file: cf,
                cur_track: None,
            };
            proof {
                assert(r@.files =~= spec_close_track(st@).files);
            }
            r
        },
    }
}

fn close_file(st: ParseState) -> (r: ParseState)
    ensures
        r@ == spec_close_file(st@),
{
    let ParseState { album_title, album_performer, files, cur_file, cur_track } = st;
    match cur_file {
        Some(f) => {
            let mut files = files;
            let ghost old_files = files@;
            files.push(f);
            let r = ParseState {
                album_title,
                album_performer,
                files,
                cur_file: None,
                cur_track,
            };
            proof {
                assert(r@.files =~= spec_close_file(st@).files);
            }
            r
        },
        None => {
            let r = ParseState {
                album_title,
                album_performer,
                files,
                cur_file: None,
                cur_track,
            };
            proof {
                assert(r@.files =~= spec_close_file(st@).files);
            }
            r
        },
    }
}

fn step_line_exec(st: ParseState, line: &Vec<char>, base_dir: &Vec<char>) -> (r: Result<
    ParseState,
    MusFuseError,
>)
    ensures
        match r {
            Ok(s2) => step_line(st@, line@, base_dir@) == Ok::<ParseStateV, Seq<char>>(s2@),
            Err(MusFuseError::Mount(m)) => step_line(st@, line@, base_dir@) == Err::<
                ParseStateV,
                Seq<char>,
            >(m@),
            Err(_) => false,
        },
{
    proof {
        reveal_strlit("REM");
        reveal_strlit("FILE");
        reveal_strlit("TRACK");
        reveal_strlit("TITLE");
        reveal_strlit("PERFORMER");
        reveal_strlit("INDEX 01");
    }
    let t = trim(line);
    if t.len() == 0 || starts_with(&t, "REM") {
        return Ok(st);
    }
    if starts_with(&t, "FILE") {
        let rest = subchars(&t, 4, t.len());
        let rt = trim(&rest);
        let p1 = match find_char(&rt, ' ', 0) {
            Some(k) => subchars(&rt, 0, k),
            None => rt,
        };
        let name = trim_char(&p1, '"');
        if name.len() == 0 {
            return Err(MusFuseError::Mount(String::from_str("invalid FILE entry")));
        }
        if !track_ordered(&st) {
            return Err(MusFuseError::Mount(String::from_str("INDEX 01 out of order")));
        }
        let path = join_path(base_dir, &name);
        let st1 = close_file(close_track(st));
        let ParseState { album_title, album_performer, files, cur_file: _, cur_track: _ } = st1;
        let r = ParseState {
            album_title,
            album_performer,
            files,
            cur_file: Some(CueFile { path: chars_to_string(&path), tracks: Vec::new() }),
            cur_track: None,
        };
        proof {
            assert(r@.cur_file->Some_0.tracks =~= step_file(
                st@,
                t@.subrange(4, t@.len() as int),
                base_dir@,
            )->Ok_0.cur_file->Some_0.tracks);
        }
        return Ok(r);
    }
    if starts_with(&t, "TRACK") {
        if st.cur_file.is_none() {
            return Err(
                MusFuseError::Mount(String::from_str("TRACK directive without a preceding FILE")),
            );
        }
        let rest = subchars(&t, 5, t.len());
        let tt = trim(&rest);
        let tok = match first_token(&tt) {
            None => {
                return Err(MusFuseError::Mount(String::from_str("missing track number")));
            },
            Some(tok) => tok,
        };
        let n = match parse_u32(&tok) {
            None => {
                return Err(MusFuseError::Mount(String::from_str("invalid track number")));
            },
            Some(n) => n,
        };
        if !track_ordered(&st) {
            return Err(MusFuseError::Mount(String::from_str("INDEX 01 out of order")));
        }
        let st1 = close_track(st);
        let ParseState { album_title, album_performer, files, cur_file, cur_track: _ } = st1;
        let r = ParseState {
            album_title,
            album_performer,
            files,
            cur_file,
            cur_track: Some(
                CueTrack { number: n, title: None, performer: None, index_01_frames: 0 },
            ),
        };
        return Ok(r);
    }
    if starts_with(&t, "TITLE") {
        let value = match extract_quoted(&t) {
            Some(v) => v,
            None => Vec::new(),
        };
        let value_string = chars_to_string(&value);
        let ParseState { album_title, album_performer, files, cur_file, cur_track } = st;
        match cur_track {
            Some(tr) => {
                let CueTrack { number, title: _, performer, index_01_frames } = tr;
                let r = ParseState {
                    album_title,
                    album_performer,
                    files,
                    cur_file,
                    cur_track: Some(
                        CueTrack { number, title: Some(value_string), performer, index_01_frames },
                    ),
                };
                return Ok(r);
            },
            None => {
                let r = ParseState {
                    album_title: Some(value_string),
                    album_performer,
                    files,
                    cur_file,
                    cur_track: None,
                };
                proof {
                    assert(opt_track_view(None::<CueTrack>) == st@.cur_track);
                }
                return Ok(r);
            },
        }
    }
    if starts_with(&t, "PERFORMER") {
        let value = match extract_quoted(&t) {
            Some(v) => v,
            None => Vec::new(),
        };
        let value_string = chars_to_string(&value);
        let ParseState { album_title, album_performer, files, cur_file, cur_track } = st;
        match cur_track {
            Some(tr) => {
                let CueTrack { number, title, performer: _, index_01_frames } = tr;
                let r = ParseState {
                    album_title,
                    album_performer,
                    files,
                    cur_file,
                    cur_track: Some(
                        CueTrack { number, title, performer: Some(value_string), index_01_frames },
                    ),
                };
                return Ok(r);
            },
            None => {
                let r = ParseState {
                    album_title,
                    album_performer: Some(value_string),
                    files,
                    cur_file,
                    cur_track: None,
                };
                proof {
                    assert(opt_track_view(None::<CueTrack>) == st@.cur_track);
                }
                return Ok(r);
            },
        }
    }
    if starts_with(&t, "INDEX 01") {
        let ts = match last_token(&t) {
            None => {
                return Err(MusFuseError::Mount(String::from_str("missing index timestamp")));
            },
            Some(ts) => ts,
        };
        let ParseState { album_title, album_performer, files, cur_file, cur_track } = st;
        match cur_track {
            None => {
                let r = ParseState { album_title, album_performer, files, cur_file, cur_track };
                return Ok(r);
            },
            Some(tr) => {
                let fr = match timestamp_to_frames(&ts) {
                    Err(e) => {
                        return Err(e);
                    },
                    Ok(fr) => fr,
                };
                let CueTrack { number, title, performer, index_01_frames: _ } = tr;
                let r = ParseState {
                    album_title,
                    album_performer,
                    files,
                    cur_file,
                    cur_track: Some(CueTrack { number, title, performer, index_01_frames: fr }),
                };
                return Ok(r);
            },
        }
    }
    Ok(st)
}

/// Parses CUE sheet text: `REM` lines are ignored, `FILE` opens a file
/// section, `TRACK` opens a track under it, `TITLE` and `PERFORMER` attach
/// to the open track or else to the album, and `INDEX 01` sets the track's
/// starting frame. Sections close at the next directive or at end of
/// input. Malformed directives are rejected with a message naming the
/// offending construct, and a track whose `INDEX 01` precedes the
/// previous track's is rejected as out of order.
pub fn parse_cue(content: &str, base_dir: &str) -> (r: Result<CueSheet, MusFuseError>)
    ensures
        match r {
            Ok(sheet) => spec_parse_cue(content@, base_dir@) == Ok::<CueSheetV, Seq<char>>(sheet@),
            Err(MusFuseError::Mount(m)) => spec_parse_cue(content@, base_dir@) == Err::<
                CueSheetV,
                Seq<char>,
            >(m@),
            Err(_) => false,
        },
{
    let cs = to_chars(content);
    let base = to_chars(base_dir);
    let lines = split_chars(&cs, '\n');
    let ghost gl = spec_split(content@, '\n');
    let mut st = ParseState {
        album_title: None,
        album_performer: None,
        files: Vec::new(),
        cur_file: None,
        cur_track: None,
    };
    proof {
        assert(st@.files =~= init_state().files);
        assert(st@ == init_state());
    }
    let mut i: usize = 0;
    while i < lines.len()
        invariant
            base@ == base_dir@,
            lines.deep_view() == gl,
            gl == spec_split(content@, '\n'),
            i <= gl.len(),
            run_lines(init_state(), gl, 0, base_dir@) == run_lines(st@, gl, i as int, base_dir@),
        decreases gl.len() - i,
    {
        proof {
            assert(lines.deep_view()[i as int] == lines@[i as int]@);
        }
        match step_line_exec(st, &lines[i], &base) {
            Ok(s2) => {
                st = s2;
            },
            Err(e) => {
                return Err(e);
            },
        }
        i = i + 1;
    }
    if !track_ordered(&st) {
        return Err(MusFuseError::Mount(String::from_str("INDEX 01 out of order")));
    }
    let st1 = close_file(close_track(st));
    let ParseState { album_title, album_performer, files, cur_file: _, cur_track: _ } = st1;
    let sheet = CueSheet { album_title, album_performer, files };
    proof {
        let fin = spec_finalize(run_lines(init_state(), gl, 0, base_dir@)->Ok_0)->Ok_0;
        assert(sheet@.files =~= fin.files);
    }
    Ok(sheet)
}

/// The CUE sheet parser.
pub struct CueParser;

impl CueParser {
    /// Parses `content` as CUE text, resolving file names against
    /// `base_dir`.
    pub fn parse_str(&self, content: &str, base_dir: &str) -> (r: Result<CueSheet, MusFuseError>)
        ensures
            match r {
                Ok(sheet) => spec_parse_cue(content@, base_dir@) == Ok::<CueSheetV, Seq<char>>(
                    sheet@,
                ),
                Err(MusFuseError::Mount(m)) => spec_parse_cue(content@, base_dir@) == Err::<
                    CueSheetV,
                    Seq<char>,
                >(m@),
                Err(_) => false,
            },
    {
        parse_cue(content, base_dir)
    }
}

/// Converting a valid `mm:ss:ff` timestamp to frames and on to
/// milliseconds yields whole milliseconds for the minute and second parts
/// plus the truncated milliseconds of the frame part.
pub proof fn lemma_timestamp_ms_round_trip(mm: nat, ss: nat, ff: nat)
    ensures
        spec_frames_to_ms(mm * 4500 + ss * 75 + ff) == (mm * 60 + ss) * 1000 + ff * 1000 / 75,
{
    let q = ff * 1000 / 75;
    let r = ff * 1000 % 75;
    vstd::arithmetic::div_mod::lemma_fundamental_div_mod((ff * 1000) as int, 75);
    vstd::arithmetic::div_mod::lemma_mod_bound((ff * 1000) as int, 75);
    let a = (mm * 60 + ss) * 1000;
    assert((mm * 4500 + ss * 75 + ff) * 1000 == 75 * (a + q) + r) by (nonlinear_arith)
        requires
            ff * 1000 == 75 * q + r,
            a == (mm * 60 + ss) * 1000,
    ;
    vstd::arithmetic::div_mod::lemma_fundamental_div_mod_converse(
        ((mm * 4500 + ss * 75 + ff) * 1000) as int,
        75,
        (a + q) as int,
        r as int,
    );
}

} // verus!
