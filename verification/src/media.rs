//! The media engine's computational core: output chunking, frame-range
//! selection for decode, FLAC re-encoding, and cover-art selection. The
//! byte production of a track goes through these; the file reads and the
//! container decoding that feed them stay with the caller.

use vstd::prelude::*;

use crate::arith::lemma_mul_within;
use crate::error::MusFuseError;
use crate::metadata::TrackId;
use crate::policy::{lower_seq, AudioFormatPolicy};
use crate::text::{chars_to_string, eq_chars, join_path, push_chars, subchars, to_chars};
use crate::track::SourceTrack;

verus! {

broadcast use vstd::std_specs::vec::group_vec_axioms;

/// The chunk size streamed output is cut into.
pub const DEFAULT_CHUNK_SIZE: usize = 262144;

/// The per-chunk duration assumed when the frame geometry is unknown.
pub const FALLBACK_CHUNK_DURATION_MS: u64 = 200;

/// One chunk of produced audio: its bytes, a non-decreasing timestamp,
/// and whether it ends the stream.
#[derive(Debug, Clone, PartialEq)]
pub struct AudioChunk {
    pub data: Vec<u8>,
    pub timestamp_ms: u64,
    pub is_end: bool,
}

/// The mathematical value of an `AudioChunk`.
pub struct AudioChunkV {
    pub data: Seq<u8>,
    pub timestamp_ms: u64,
    pub is_end: bool,
}

impl View for AudioChunk {
    type V = AudioChunkV;

    open spec fn view(&self) -> AudioChunkV {
        AudioChunkV { data: self.data@, timestamp_ms: self.timestamp_ms, is_end: self.is_end }
    }
}

/// Produced media: a streamed chunk or a complete byte payload.
#[derive(Debug, Clone, PartialEq)]
pub enum MediaContent {
    Stream(AudioChunk),
    Complete(Vec<u8>),
}

/// What a transcode is asked for: the track and the policy to apply.
#[derive(Debug, Clone, PartialEq)]
pub struct TranscodeRequest {
    pub track: SourceTrack,
    pub policy: AudioFormatPolicy,
}

/// What a transcode produced: the track, the served format name, and the
/// chunks.
#[derive(Debug, PartialEq)]
pub struct TranscodeResult {
    pub track_id: TrackId,
    pub format: String,
    pub chunks: Vec<AudioChunk>,
}

/// The mathematical value of a `TranscodeResult`.
pub struct TranscodeResultV {
    pub track_id: crate::metadata::TrackIdV,
    pub format: Seq<char>,
    pub chunks: Seq<AudioChunkV>,
}

impl View for TranscodeResult {
    type V = TranscodeResultV;

    open spec fn view(&self) -> TranscodeResultV {
        TranscodeResultV {
            track_id: self.track_id@,
            format: self.format@,
            chunks: chunks_view(self.chunks@),
        }
    }
}

/// The mathematical value of optional cover bytes.
pub open spec fn opt_bytes_view(o: Option<Vec<u8>>) -> Option<Seq<u8>> {
    match o {
        None => None,
        Some(v) => Some(v@),
    }
}

/// Produces the raw chunks of a track.
pub trait AudioReader {
    /// Reads the track's byte stream as chunks.
    fn read(&self, track: &SourceTrack) -> Result<Vec<AudioChunk>, MusFuseError>;
}

/// Produces the presented bytes of a track under a policy. What a
/// transcoder yields is modeled by `transcoded`; an implementation may
/// always fail instead.
pub trait FormatTranscoder {
    /// The result this transcoder attributes to a track under a policy,
    /// if any.
    spec fn transcoded(
        &self,
        track: crate::track::SourceTrackV,
        policy: AudioFormatPolicy,
    ) -> Option<TranscodeResultV>;

    /// Transcodes per the request's policy.
    fn transcode(&self, request: &TranscodeRequest) -> (r: Result<TranscodeResult, MusFuseError>)
        ensures
            r matches Ok(t) ==> self.transcoded(request.track@, request.policy) == Some(t@),
    ;
}

/// Produces a track's cover image, if one can be found. What an extractor
/// finds is modeled by `cover_of`; an implementation may always fail
/// instead.
pub trait CoverExtractor {
    /// The cover this extractor attributes to the track, if it can tell.
    spec fn cover_of(&self, track: crate::track::SourceTrackV) -> Option<Option<Seq<u8>>>;

    /// Extracts cover art for the track; `Ok(None)` when nothing is
    /// found.
    fn extract(&self, track: &SourceTrack) -> (r: Result<Option<Vec<u8>>, MusFuseError>)
        ensures
            r matches Ok(c) ==> self.cover_of(track@) == Some(opt_bytes_view(c)),
    ;
}

/// The concatenated bytes of a chunk sequence.
pub open spec fn chunks_data(chunks: Seq<AudioChunkV>) -> Seq<u8>
    decreases chunks.len(),
{
    if chunks.len() == 0 {
        Seq::empty()
    } else {
        chunks_data(chunks.drop_last()) + chunks.last().data
    }
}

/// The views of a chunk vector.
pub open spec fn chunks_view(chunks: Seq<AudioChunk>) -> Seq<AudioChunkV> {
    Seq::new(chunks.len(), |i: int| chunks[i]@)
}

/// What a correctly chunked stream looks like for its input: the chunks
/// concatenate back to the input; every chunk except the last holds
/// exactly `chunk_size` bytes and none is empty; there are none exactly
/// for empty input, and otherwise exactly enough to cover the input;
/// exactly the last chunk ends the stream; and each chunk is timestamped
/// by its byte offset under the given frame geometry, so timestamps never
/// decrease.
pub open spec fn well_chunked(
    chunks: Seq<AudioChunkV>,
    data: Seq<u8>,
    chunk_size: int,
    frame_bytes: Option<usize>,
    sample_rate: Option<u32>,
) -> bool {
    &&& chunks_data(chunks) == data
    &&& (data.len() == 0 <==> chunks.len() == 0)
    &&& (data.len() > 0 ==> chunks.len() == (data.len() + chunk_size - 1) / chunk_size)
    &&& forall|i: int|
        0 <= i < chunks.len() ==> 0 < (#[trigger] chunks[i]).data.len() <= chunk_size
    &&& forall|i: int|
        0 <= i < chunks.len() - 1 ==> (#[trigger] chunks[i]).data.len() == chunk_size
    &&& forall|i: int|
        0 <= i < chunks.len() ==> ((#[trigger] chunks[i]).is_end <==> i == chunks.len() - 1)
    &&& forall|i: int|
        0 <= i < chunks.len() ==> (#[trigger] chunks[i]).timestamp_ms as int
            == spec_offset_timestamp(
            (i * chunk_size) as usize,
            frame_bytes,
            sample_rate,
            i as usize,
        )
    &&& forall|i: int, j: int|
        0 <= i < j < chunks.len() ==> (#[trigger] chunks[i]).timestamp_ms <= (
        #[trigger] chunks[j]).timestamp_ms
}

/// How many bytes one PCM frame takes: the channel count times the byte
/// width of a sample (eight-bit minimum), when the channel count is
/// known and positive.
pub open spec fn spec_bytes_per_frame(channels: Option<u16>, bits_per_sample: Option<u16>) -> Option<
    usize,
> {
    match channels {
        None => None,
        Some(c) => if c == 0 {
            None
        } else {
            let bits = match bits_per_sample {
                Some(b) => if b >= 8 {
                    b
                } else {
                    8
                },
                None => 16,
            };
            let bps = if bits as int / 8 >= 1 {
                bits as int / 8
            } else {
                1
            };
            Some((c as int * bps) as usize)
        },
    }
}


/// The timestamp of a chunk starting at `offset_bytes`: whole
/// milliseconds of the frames before it when the frame geometry is
/// known, else a fixed duration per preceding chunk.
pub open spec fn spec_offset_timestamp(
    offset_bytes: usize,
    frame_bytes: Option<usize>,
    sample_rate: Option<u32>,
    chunk_index: usize,
) -> int {
    if frame_bytes is Some && sample_rate is Some && frame_bytes->Some_0 > 0
        && sample_rate->Some_0 > 0 {
        (offset_bytes as int / frame_bytes->Some_0 as int) * 1000 / sample_rate->Some_0 as int
    } else {
        chunk_index as int * FALLBACK_CHUNK_DURATION_MS as int
    }
}



/// Timestamps never decrease as the offset and index grow.
proof fn lemma_timestamp_monotone(
    o1: usize,
    o2: usize,
    i1: usize,
    i2: usize,
    frame_bytes: Option<usize>,
    sample_rate: Option<u32>,
)
    requires
        o1 <= o2,
        i1 <= i2,
    ensures
        spec_offset_timestamp(o1, frame_bytes, sample_rate, i1) <= spec_offset_timestamp(
            o2,
            frame_bytes,
            sample_rate,
            i2,
        ),
{
    if frame_bytes is Some && sample_rate is Some && frame_bytes->Some_0 > 0
        && sample_rate->Some_0 > 0 {
        let fb = frame_bytes->Some_0 as int;
        let sr = sample_rate->Some_0 as int;
        vstd::arithmetic::div_mod::lemma_div_is_ordered(o1 as int, o2 as int, fb);
        vstd::arithmetic::mul::lemma_mul_inequality(o1 as int / fb, o2 as int / fb, 1000);
        vstd::arithmetic::div_mod::lemma_div_is_ordered(
            (o1 as int / fb) * 1000,
            (o2 as int / fb) * 1000,
            sr,
        );
    } else {
        vstd::arithmetic::mul::lemma_mul_inequality(
            i1 as int,
            i2 as int,
            FALLBACK_CHUNK_DURATION_MS as int,
        );
    }
}

/// A copy of the bytes from `from` (inclusive) to `to` (exclusive).
fn subchars_u8(v: &Vec<u8>, from: usize, to: usize) -> (r: Vec<u8>)
    requires
        from <= to <= v@.len(),
    ensures
        r@ == v@.subrange(from as int, to as int),
{
    let mut r: Vec<u8> = Vec::new();
    let mut i: usize = from;
    while i < to
        invariant
            from <= i <= to <= v@.len(),
            r@ == v@.subrange(from as int, i as int),
        decreases to - i,
    {
        let c = v[i];
        r.push(c);
        i = i + 1;
        proof {
            assert(r@ =~= v@.subrange(from as int, i as int));
        }
    }
    r
}

/// The predicate selecting everything but a path separator, as a value.
pub open spec fn nonsep_pred() -> spec_fn(char) -> bool {
    |c: char| !(c == '/' || c == '\\')
}

/// The predicate selecting everything but a dot, as a value.
pub open spec fn nondot_pred() -> spec_fn(char) -> bool {
    |c: char| c != '.'
}

/// The file name of a path: what follows the last separator.
pub open spec fn spec_file_name(p: Seq<char>) -> Seq<char> {
    p.subrange(crate::text::skip_while_back(p, p.len() as int, nonsep_pred()), p.len() as int)
}

/// The extension of a path: what follows the last dot of its file name,
/// provided that dot is not the name's first character.
pub open spec fn spec_path_ext(p: Seq<char>) -> Option<Seq<char>> {
    let name = spec_file_name(p);
    let b = crate::text::skip_while_back(name, name.len() as int, nondot_pred());
    if b >= 2 {
        Some(name.subrange(b, name.len() as int))
    } else {
        None
    }
}

/// The extension a policy decision is made from: the path's extension,
/// or nothing when the path has none.
pub open spec fn spec_ext_or_empty(p: Seq<char>) -> Seq<char> {
    match spec_path_ext(p) {
        Some(e) => e,
        None => Seq::empty(),
    }
}

/// The format name a track is served under in passthrough: its lowered
/// extension when that is one of the known container names, else `bin`.
pub open spec fn spec_extension_of(p: Seq<char>) -> Seq<char> {
    match spec_path_ext(p) {
        None => "bin"@,
        Some(e) => {
            let low = lower_seq(e);
            if low == "wav"@ {
                "wav"@
            } else if low == "flac"@ {
                "flac"@
            } else if low == "ogg"@ {
                "ogg"@
            } else if low == "mp3"@ {
                "mp3"@
            } else if low == "aac"@ {
                "aac"@
            } else if low == "m4a"@ {
                "m4a"@
            } else {
                "bin"@
            }
        },
    }
}

/// Computes the extension of `p`, as `spec_path_ext` defines it.
pub fn path_ext(p: &Vec<char>) -> (r: Option<Vec<char>>)
    ensures
        match r {
            Some(e) => spec_path_ext(p@) == Some(e@),
            None => spec_path_ext(p@) is None,
        },
{
    let ghost s = p@;
    let mut a: usize = p.len();
    while a > 0 && !(p[a - 1] == '/' || p[a - 1] == '\\')
        invariant
            0 <= a <= s.len(),
            p@ == s,
            crate::text::skip_while_back(s, s.len() as int, nonsep_pred())
                == crate::text::skip_while_back(s, a as int, nonsep_pred()),
        decreases a,
    {
        a = a - 1;
    }
    proof {
        assert(crate::text::skip_while_back(s, a as int, nonsep_pred()) == a as int);
    }
    let name = subchars(p, a, p.len());
    let ghost nm = name@;
    let mut b: usize = name.len();
    while b > 0 && name[b - 1] != '.'
        invariant
            0 <= b <= nm.len(),
            name@ == nm,
            crate::text::skip_while_back(nm, nm.len() as int, nondot_pred())
                == crate::text::skip_while_back(nm, b as int, nondot_pred()),
        decreases b,
    {
        b = b - 1;
    }
    proof {
        assert(crate::text::skip_while_back(nm, b as int, nondot_pred()) == b as int);
    }
    if b >= 2 {
        Some(subchars(&name, b, name.len()))
    } else {
        None
    }
}

/// The PCM stream selected for one track and its geometry: interleaved
/// samples, sample rate, channel count, bit width.
#[derive(Debug, PartialEq)]
pub struct DecodedAudio {
    pub samples: Vec<i32>,
    pub sample_rate: u32,
    pub channels: u8,
    pub bits_per_sample: u32,
}

/// A lossless re-encoding and its declared geometry.
#[derive(Debug, PartialEq)]
pub struct EncodedAudio {
    pub data: Vec<u8>,
    pub sample_rate: u32,
    pub channels: u16,
    pub bits_per_sample: u16,
}

/// Selects the frames `[start_frame, end_frame)` out of a decoded packet
/// stream, packet by packet. The caller pumps decoded packets through
/// `on_packet` (and simply continues after a decoder reset) until it
/// reports that the requested range is complete or the stream ends.
pub struct DecodeSelector {
    pub start_frame: u64,
    pub end_frame: u64,
    pub channels: u8,
    pub current_frame: u64,
    pub samples: Vec<i32>,
}

/// The sample window of a packet that overlaps the requested range:
/// `[sel_lo, sel_hi)` in sample indices.
pub open spec fn spec_packet_window(
    start_frame: u64,
    end_frame: u64,
    current: u64,
    frame_count: int,
    channels: u8,
) -> (int, int) {
    let bs = current as int;
    let be = current as int + frame_count;
    let ss = if (start_frame as int) > bs {
        start_frame as int
    } else {
        bs
    };
    let se = if (end_frame as int) < be {
        end_frame as int
    } else {
        be
    };
    (((ss - bs) * channels as int), ((se - bs) * channels as int))
}

impl DecodeSelector {
    /// Starts a selection at `offset_frames`, running `length_frames`
    /// frames, or to the end of the stream when the length is zero.
    pub fn new(offset_frames: u64, length_frames: u64, channels: u8) -> (r: DecodeSelector)
        requires
            channels >= 1,
            length_frames > 0 ==> offset_frames + length_frames <= u64::MAX,
        ensures
            r.start_frame == offset_frames,
            r.end_frame == if length_frames > 0 {
                (offset_frames + length_frames) as u64
            } else {
                u64::MAX
            },
            r.channels == channels,
            r.current_frame == 0,
            r.samples@ =~= Seq::<i32>::empty(),
    {
        let end_frame: u64 = if length_frames > 0 {
            offset_frames + length_frames
        } else {
            u64::MAX
        };
        DecodeSelector {
            start_frame: offset_frames,
            end_frame,
            channels,
            current_frame: 0,
            samples: Vec::new(),
        }
    }

    /// Feeds one packet of interleaved samples: the packet covers the
    /// frames from the current position on, and only its overlap with the
    /// requested range is appended. The result says whether the requested
    /// end has been reached (an empty packet never ends the stream).
    pub fn on_packet(&mut self, buffer: &Vec<i32>) -> (done: bool)
        requires
            old(self).channels >= 1,
            old(self).current_frame as int + buffer@.len() as int <= u64::MAX as int,
        ensures
            final(self).start_frame == old(self).start_frame,
            final(self).end_frame == old(self).end_frame,
            final(self).channels == old(self).channels,
            final(self).current_frame as int == old(self).current_frame as int + buffer@.len() as int
                / old(self).channels as int,
            ({
                let (lo, hi) = spec_packet_window(
                    old(self).start_frame,
                    old(self).end_frame,
                    old(self).current_frame,
                    buffer@.len() as int / old(self).channels as int,
                    old(self).channels,
                );
                final(self).samples@ == old(self).samples@ + (if hi > lo {
                    buffer@.subrange(lo, hi)
                } else {
                    Seq::empty()
                })
            }),
            done == (buffer@.len() > 0 && final(self).current_frame >= final(self).end_frame),
            old(self).samples@.len() % (old(self).channels as nat) == 0
                ==> final(self).samples@.len() % (final(self).channels as nat) == 0,
    {
        let ghost pre = *self;
        let ch: u64 = self.channels as u64;
        let frame_count: u64 = (buffer.len() as u64) / ch;
        proof {
            vstd::arithmetic::div_mod::lemma_div_is_ordered(
                0,
                buffer@.len() as int,
                ch as int,
            );
            vstd::arithmetic::div_mod::lemma_div_is_ordered_by_denominator(
                buffer@.len() as int,
                1,
                ch as int,
            );
        }
        if buffer.len() == 0 {
            proof {
                let fc = buffer@.len() as int / pre.channels as int;
                let (lo, hi) = spec_packet_window(
                    pre.start_frame,
                    pre.end_frame,
                    pre.current_frame,
                    fc,
                    pre.channels,
                );
                let bs = pre.current_frame as int;
                let ss = if (pre.start_frame as int) > bs {
                    pre.start_frame as int
                } else {
                    bs
                };
                let se = if (pre.end_frame as int) < bs {
                    pre.end_frame as int
                } else {
                    bs
                };
                vstd::arithmetic::mul::lemma_mul_inequality(se - bs, ss - bs, pre.channels as int);
                assert(hi <= lo);
                assert(self.samples@ =~= pre.samples@ + Seq::<i32>::empty());
            }
            return false;
        }
        let buffer_start: u64 = self.current_frame;
        let buffer_end: u64 = self.current_frame + frame_count;
        let select_start: u64 = if self.start_frame > buffer_start {
            self.start_frame
        } else {
            buffer_start
        };
        let select_end: u64 = if self.end_frame < buffer_end {
            self.end_frame
        } else {
            buffer_end
        };
        if select_end > select_start {
            proof {
                assert((select_end - buffer_start) * ch as int <= frame_count * ch as int) by (
                nonlinear_arith)
                    requires
                        select_end - buffer_start <= frame_count,
                        ch as int >= 1,
                ;
                vstd::arithmetic::div_mod::lemma_fundamental_div_mod(
                    buffer@.len() as int,
                    ch as int,
                );
                vstd::arithmetic::div_mod::lemma_mod_bound(buffer@.len() as int, ch as int);
                assert((select_start - buffer_start) * ch as int <= (select_end - buffer_start)
                    * ch as int) by (nonlinear_arith)
                    requires
                        select_start <= select_end,
                        buffer_start <= select_start,
                        ch as int >= 1,
                ;
            }
            proof {
                vstd::arithmetic::mul::lemma_mul_strict_inequality(
                    select_start as int - buffer_start as int,
                    select_end as int - buffer_start as int,
                    ch as int,
                );
                assert((select_start as int - buffer_start as int) * ch as int == (select_start
                    - buffer_start) as int * ch as int);
            }
            let lo64: u64 = (select_start - buffer_start) * ch;
            let hi64: u64 = (select_end - buffer_start) * ch;
            let lo: usize = lo64 as usize;
            let hi: usize = hi64 as usize;
            let mut i: usize = lo;
            while i < hi
                invariant
                    lo <= i <= hi <= buffer@.len(),
                    self.samples@ == pre.samples@ + buffer@.subrange(lo as int, i as int),
                    self.start_frame == pre.start_frame,
                    self.end_frame == pre.end_frame,
                    self.channels == pre.channels,
                    self.current_frame == pre.current_frame,
                decreases hi - i,
            {
                let v = buffer[i];
                self.samples.push(v);
                i = i + 1;
                proof {
                    assert(self.samples@ =~= pre.samples@ + buffer@.subrange(lo as int, i as int));
                }
            }
            proof {
                if pre.samples@.len() % (pre.channels as nat) == 0 {
                    let sel = select_end as int - select_start as int;
                    assert(hi as int - lo as int == sel * (ch as int)) by (nonlinear_arith)
                        requires
                            hi as int == (select_end as int - buffer_start as int) * (ch as int),
                            lo as int == (select_start as int - buffer_start as int) * (
                            ch as int),
                            sel == select_end as int - select_start as int,
                    ;
                    vstd::arithmetic::div_mod::lemma_mod_multiples_basic(sel, ch as int);
                    vstd::arithmetic::div_mod::lemma_add_mod_noop(
                        pre.samples@.len() as int,
                        hi as int - lo as int,
                        ch as int,
                    );
                    assert(self.samples@.len() % (self.channels as nat) == 0);
                }
            }
        } else {
            proof {
                let bs = buffer_start as int;
                vstd::arithmetic::mul::lemma_mul_inequality(
                    select_end as int - bs,
                    select_start as int - bs,
                    ch as int,
                );
                assert(self.samples@ =~= pre.samples@ + Seq::<i32>::empty());
            }
        }
        self.current_frame = buffer_end;
        self.current_frame >= self.end_frame
    }

    /// Finishes the selection: the samples gathered for the range, or a
    /// media error when the range yielded none — a decode with no usable
    /// audio is a failure, not an empty success.
    pub fn finish(self) -> (r: Result<Vec<i32>, MusFuseError>)
        ensures
            match r {
                Ok(samples) => self.samples@.len() > 0 && samples@ == self.samples@,
                Err(e) => self.samples@.len() == 0 && (e matches MusFuseError::Media(m) && m@
                    == "no audio samples decoded"@),
            },
    {
        if self.samples.len() == 0 {
            Err(MusFuseError::Media(String::from_str("no audio samples decoded")))
        } else {
            Ok(self.samples)
        }
    }
}

/// The byte stream flac encoding produces for a sample stream and its
/// geometry: a fixed function of them, computed by the encoder.
pub uninterp spec fn flac_stream(
    samples: Seq<i32>,
    sample_rate: u32,
    bits_per_sample: u32,
    channels: u8,
) -> Seq<u8>;

/// Whether flac encoding accepts a stream geometry: one to thirty-two
/// bits per sample, one to eight channels, and a sample rate below 2^20.
pub open spec fn flac_geometry_valid(sample_rate: u32, bits_per_sample: u32, channels: u8) -> bool {
    &&& 1 <= bits_per_sample <= 32
    &&& 1 <= channels <= 8
    &&& sample_rate < 1048576
}

/// Relies on `flac_codec::encode::FlacSampleWriter` (`new`, `write`,
/// `finalize`) writing to an in-memory cursor: the encoded stream is a
/// function of the samples and the declared geometry alone; `new`
/// validates exactly the geometry `flac_geometry_valid` states and writes
/// the stream marker and stream information up front, so the stream is
/// never empty; writes to the cursor cannot fail, and finalizing rejects
/// a stream of no samples, so success is owed exactly for valid geometry
/// and at least one sample. The encoder panics on a trailing partial PCM
/// frame, and on a stream so long that its seek points outgrow a seek
/// table at the default ten-second interval and 4096-sample blocks, so
/// the samples are required to be whole frames within that length.
#[verifier::external_body]
fn flac_encode_bytes(samples: &Vec<i32>, sample_rate: u32, bits_per_sample: u32, channels: u8) -> (r:
    Result<Vec<u8>, String>)
    requires
        channels >= 1,
        samples@.len() % (channels as nat) == 0,
        samples@.len() <= 3817746432,
    ensures
        r is Ok <==> (flac_geometry_valid(sample_rate, bits_per_sample, channels)
            && samples@.len() > 0),
        r matches Ok(b) ==> b@ == flac_stream(samples@, sample_rate, bits_per_sample, channels)
            && b@.len() > 0,
{
    let mut cursor = std::io::Cursor::new(Vec::new());
    let mut writer = flac_codec::encode::FlacSampleWriter::new(
        &mut cursor,
        flac_codec::encode::Options::default(),
        sample_rate,
        bits_per_sample,
        channels,
        None,
    ).map_err(|e| e.to_string())?;
    writer.write(samples.as_slice()).map_err(|e| e.to_string())?;
    writer.finalize().map_err(|e| e.to_string())?;
    Ok(cursor.into_inner())
}

/// Re-encodes decoded PCM losslessly as FLAC: success exactly for a valid
/// geometry with at least one sample, and the encoding carries the source
/// geometry unchanged.
pub fn encode_flac(decoded: DecodedAudio) -> (r: Result<EncodedAudio, MusFuseError>)
    requires
        decoded.channels >= 1,
        decoded.samples@.len() % (decoded.channels as nat) == 0,
        decoded.samples@.len() <= 3817746432,
    ensures
        r is Ok <==> (flac_geometry_valid(
            decoded.sample_rate,
            decoded.bits_per_sample,
            decoded.channels,
        ) && decoded.samples@.len() > 0),
        match r {
            Ok(e) => {
                &&& e.data@ == flac_stream(
                    decoded.samples@,
                    decoded.sample_rate,
                    decoded.bits_per_sample,
                    decoded.channels,
                )
                &&& e.data@.len() > 0
                &&& e.sample_rate == decoded.sample_rate
                &&& e.channels == decoded.channels as u16
                &&& e.bits_per_sample == decoded.bits_per_sample as u16
            },
            Err(e) => e is Media,
        },
{
    match flac_encode_bytes(
        &decoded.samples,
        decoded.sample_rate,
        decoded.bits_per_sample,
        decoded.channels,
    ) {
        Ok(data) => Ok(
            EncodedAudio {
                data,
                sample_rate: decoded.sample_rate,
                channels: decoded.channels as u16,
                bits_per_sample: decoded.bits_per_sample as u16,
            },
        ),
        Err(m) => Err(MusFuseError::Media(m)),
    }
}

/// The default transcoder: byte passthrough and lossless conversion to
/// FLAC, over bytes and samples its caller has already read.
pub struct DefaultFormatTranscoder;

impl DefaultFormatTranscoder {
    /// Builds the default transcoder.
    pub fn new() -> (r: DefaultFormatTranscoder) {
        DefaultFormatTranscoder
    }

    /// Computes the bytes one PCM frame takes.
    pub fn bytes_per_frame(channels: Option<u16>, bits_per_sample: Option<u16>) -> (r: Option<usize>)
        ensures
            r == spec_bytes_per_frame(channels, bits_per_sample),
    {
        match channels {
            None => None,
            Some(c) => {
                if c == 0 {
                    None
                } else {
                    let bits: u16 = match bits_per_sample {
                        Some(b) => if b >= 8 {
                            b
                        } else {
                            8
                        },
                        None => 16,
                    };
                    let bytes_per_sample: usize = (bits / 8) as usize;
                    let bps: usize = if bytes_per_sample >= 1 {
                        bytes_per_sample
                    } else {
                        1
                    };
                    proof {
                        assert(c as int * bps as int <= 65535 * 8192) by (nonlinear_arith)
                            requires
                                0 < c as int <= 65535,
                                0 < bps as int <= 8192,
                        ;
                    }
                    Some((c as usize) * bps)
                }
            },
        }
    }

    /// Computes a chunk's timestamp from its byte offset. The offset and
    /// index bounds keep the products inside a `u64`.
    pub fn offset_to_timestamp(
        offset_bytes: usize,
        frame_bytes: Option<usize>,
        sample_rate: Option<u32>,
        chunk_index: usize,
    ) -> (r: u64)
        requires
            offset_bytes as int <= u64::MAX as int / 1000,
            chunk_index as int <= u64::MAX as int / FALLBACK_CHUNK_DURATION_MS as int,
        ensures
            r == spec_offset_timestamp(offset_bytes, frame_bytes, sample_rate, chunk_index),
    {
        if let (Some(fb), Some(sr)) = (frame_bytes, sample_rate) {
            if fb > 0 && sr > 0 {
                let frames: u64 = (offset_bytes / fb) as u64;
                proof {
                    vstd::arithmetic::div_mod::lemma_div_is_ordered(
                        0,
                        offset_bytes as int,
                        fb as int,
                    );
                    vstd::arithmetic::div_mod::lemma_div_is_ordered_by_denominator(
                        offset_bytes as int,
                        1,
                        fb as int,
                    );
                    lemma_mul_within(frames as int, 1000, u64::MAX as int);
                }
                return (frames * 1000) / (sr as u64);
            }
        }
        proof {
            lemma_mul_within(chunk_index as int, FALLBACK_CHUNK_DURATION_MS as int, u64::MAX as int);
        }
        (chunk_index as u64) * FALLBACK_CHUNK_DURATION_MS
    }

    /// Splits `data` into chunks of exactly `chunk_size` bytes (the last
    /// holding the remainder) whose concatenation is `data` again, each
    /// timestamped by its byte offset, the last one flagged as the
    /// stream's end; empty input yields no chunks.
    pub fn chunk_bytes(
        data: Vec<u8>,
        chunk_size: usize,
        sample_rate: Option<u32>,
        channels: Option<u16>,
        bits_per_sample: Option<u16>,
    ) -> (r: Vec<AudioChunk>)
        requires
            chunk_size >= 1,
            data@.len() as int <= u64::MAX as int / 1000,
            data@.len() as int <= u64::MAX as int / FALLBACK_CHUNK_DURATION_MS as int,
        ensures
            well_chunked(
                chunks_view(r@),
                data@,
                chunk_size as int,
                spec_bytes_per_frame(channels, bits_per_sample),
                sample_rate,
            ),
    {
        let frame_bytes = Self::bytes_per_frame(channels, bits_per_sample);
        let mut chunks: Vec<AudioChunk> = Vec::new();
        let mut offset: usize = 0;
        let mut index: usize = 0;
        let n = data.len();
        proof {
            assert(chunks_data(chunks_view(chunks@)) =~= data@.subrange(0, 0));
        }
        while offset < n
            invariant
                n == data@.len(),
                n as int <= u64::MAX as int / 1000,
                n as int <= u64::MAX as int / FALLBACK_CHUNK_DURATION_MS as int,
                chunk_size >= 1,
                offset <= n,
                index <= offset,
                index > 0 ==> offset < n,
                chunks@.len() == index as int,
                offset as int == index as int * chunk_size as int,
                chunks_data(chunks_view(chunks@)) == data@.subrange(0, offset as int),
                forall|i: int| 0 <= i < chunks@.len() ==> !(#[trigger] chunks@[i]).is_end,
                forall|i: int|
                    0 <= i < chunks@.len() ==> (#[trigger] chunks@[i]).data@.len() == chunk_size,
                forall|i: int|
                    0 <= i < chunks@.len() ==> (#[trigger] chunks@[i]).timestamp_ms as int
                        == spec_offset_timestamp(
                        (i * chunk_size as int) as usize,
                        frame_bytes,
                        sample_rate,
                        i as usize,
                    ),
                forall|i: int, j: int|
                    0 <= i < j < chunks@.len() ==> (#[trigger] chunks@[i]).timestamp_ms <= (
                    #[trigger] chunks@[j]).timestamp_ms,
                frame_bytes == spec_bytes_per_frame(channels, bits_per_sample),
            decreases n - offset,
        {
            let take: usize = if n - offset < chunk_size {
                n - offset
            } else {
                chunk_size
            };
            let piece = subchars_u8(&data, offset, offset + take);
            let ts = Self::offset_to_timestamp(offset, frame_bytes, sample_rate, index);
            let is_last = offset + take == n;
            let ghost oldchunks = chunks@;
            chunks.push(AudioChunk { data: piece, timestamp_ms: ts, is_end: is_last });
            proof {
                let cv = chunks_view(chunks@);
                assert(cv.drop_last() =~= chunks_view(oldchunks));
                assert(chunks_data(cv) =~= data@.subrange(0, (offset + take) as int));
                assert(forall|i: int| 0 <= i < oldchunks.len() ==> chunks@[i] == oldchunks[i]);
                assert(chunks@[chunks@.len() - 1].timestamp_ms as int == spec_offset_timestamp(
                    (index as int * chunk_size as int) as usize,
                    frame_bytes,
                    sample_rate,
                    index,
                ));
                assert(forall|i: int, j: int|
                    0 <= i < j < chunks@.len() ==> (#[trigger] chunks@[i]).timestamp_ms <= (
                    #[trigger] chunks@[j]).timestamp_ms) by {
                    assert(forall|i: int|
                        0 <= i < oldchunks.len() ==> (#[trigger] chunks@[i]).timestamp_ms as int
                            <= spec_offset_timestamp(offset, frame_bytes, sample_rate, index)) by {
                        assert forall|i: int| 0 <= i < oldchunks.len() implies (
                        #[trigger] chunks@[i]).timestamp_ms as int <= spec_offset_timestamp(
                            offset,
                            frame_bytes,
                            sample_rate,
                            index,
                        ) by {
                            vstd::arithmetic::mul::lemma_mul_inequality(
                                i,
                                index as int,
                                chunk_size as int,
                            );
                            lemma_timestamp_monotone(
                                (i * chunk_size as int) as usize,
                                offset,
                                i as usize,
                                index,
                                frame_bytes,
                                sample_rate,
                            );
                        }
                    }
                }
                if is_last {
                    Self::chunk_count_rounds_up(
                        n as int,
                        chunk_size as int,
                        index as int,
                        take as int,
                    );
                }
            }
            offset = offset + take;
            index = index + 1;
            proof {
                assert((index as int) * (chunk_size as int) == (index as int - 1) * (
                chunk_size as int) + chunk_size as int) by (nonlinear_arith);
            }
            if is_last {
                proof {
                    assert(data@.subrange(0, n as int) =~= data@);
                }
                return chunks;
            }
        }
        proof {
            assert(n == 0);
            assert(chunks_view(chunks@) =~= Seq::<AudioChunkV>::empty());
            assert(data@ =~= Seq::<u8>::empty());
        }
        chunks
    }

    /// Covering `k` full chunks and one final partial chunk takes exactly
    /// the rounded-up chunk count.
    proof fn chunk_count_rounds_up(n: int, cs: int, k: int, take: int)
        requires
            cs >= 1,
            k >= 0,
            1 <= take <= cs,
            n == k * cs + take,
        ensures
            (n + cs - 1) / cs == k + 1,
    {
        assert(n + cs - 1 == (k + 1) * cs + (take - 1)) by (nonlinear_arith)
            requires
                n == k * cs + take,
        ;
        vstd::arithmetic::div_mod::lemma_fundamental_div_mod_converse(
            n + cs - 1,
            cs,
            k + 1,
            take - 1,
        );
    }

    /// The format name a track's bytes are served under in passthrough.
    pub fn extension_of(track: &SourceTrack) -> (r: String)
        ensures
            r@ == spec_extension_of(track.path@),
    {
        let pc = to_chars(track.path.as_str());
        let ext = match path_ext(&pc) {
            None => {
                return String::from_str("bin");
            },
            Some(e) => e,
        };
        let low = crate::policy::to_lower(&ext);
        let wav = to_chars("wav");
        let flac = to_chars("flac");
        let ogg = to_chars("ogg");
        let mp3 = to_chars("mp3");
        let aac = to_chars("aac");
        let m4a = to_chars("m4a");
        if eq_chars(&low, &wav) {
            String::from_str("wav")
        } else if eq_chars(&low, &flac) {
            String::from_str("flac")
        } else if eq_chars(&low, &ogg) {
            String::from_str("ogg")
        } else if eq_chars(&low, &mp3) {
            String::from_str("mp3")
        } else if eq_chars(&low, &aac) {
            String::from_str("aac")
        } else if eq_chars(&low, &m4a) {
            String::from_str("m4a")
        } else {
            String::from_str("bin")
        }
    }

    /// Splits a track's bytes into passthrough chunks: their
    /// concatenation is the input again, and the last chunk ends the
    /// stream. The length bound keeps timestamps inside a `u64`.
    pub fn passthrough_chunks(data: Vec<u8>, sample_rate: u32, channels: u16) -> (r: Vec<
        AudioChunk,
    >)
        requires
            data@.len() as int <= u64::MAX as int / 1000,
        ensures
            well_chunked(
                chunks_view(r@),
                data@,
                DEFAULT_CHUNK_SIZE as int,
                spec_bytes_per_frame(Some(channels), None),
                if sample_rate > 0 {
                    Some(sample_rate)
                } else {
                    None
                },
            ),
    {
        let sr = if sample_rate > 0 {
            Some(sample_rate)
        } else {
            None
        };
        Self::chunk_bytes(data, DEFAULT_CHUNK_SIZE, sr, Some(channels), None)
    }

    /// Serves a track's bytes unmodified, chunked, under the container's
    /// native format name. For a CUE-sliced track this is the whole
    /// physical file: slicing a compressed container by byte offset is
    /// not generally valid, so frame-accurate slices go through
    /// conversion instead.
    pub fn passthrough(&self, track: &SourceTrack, data: Vec<u8>) -> (r: TranscodeResult)
        requires
            data@.len() as int <= u64::MAX as int / 1000,
        ensures
            r.track_id@ == track.id@,
            r.format@ == spec_extension_of(track.path@),
            well_chunked(
                chunks_view(r.chunks@),
                data@,
                DEFAULT_CHUNK_SIZE as int,
                spec_bytes_per_frame(Some(track.channels), None),
                if track.sample_rate > 0 {
                    Some(track.sample_rate)
                } else {
                    None
                },
            ),
    {
        let format = Self::extension_of(track);
        let chunks = Self::passthrough_chunks(data, track.sample_rate, track.channels);
        TranscodeResult { track_id: track.id.clone(), format, chunks }
    }

    /// Re-encodes a track's selected PCM losslessly to FLAC and chunks
    /// the stream. An encoder failure, or an encoded stream too large to
    /// timestamp, is a media error.
    /// Re-encodes a track's selected PCM losslessly to FLAC and chunks
    /// the stream: success exactly for a valid geometry whose encoded
    /// stream is small enough to timestamp; the served format is `flac`
    /// and the chunks carry the whole encoded stream.
    pub fn convert_lossless(&self, track: &SourceTrack, decoded: DecodedAudio) -> (r: Result<
        TranscodeResult,
        MusFuseError,
    >)
        requires
            decoded.channels >= 1,
            decoded.samples@.len() % (decoded.channels as nat) == 0,
            decoded.samples@.len() <= 3817746432,
        ensures
            r is Ok <==> (flac_geometry_valid(
                decoded.sample_rate,
                decoded.bits_per_sample,
                decoded.channels,
            ) && decoded.samples@.len() > 0 && flac_stream(
                decoded.samples@,
                decoded.sample_rate,
                decoded.bits_per_sample,
                decoded.channels,
            ).len() as int <= u64::MAX as int / 1000),
            match r {
                Ok(t) => {
                    &&& t.track_id@ == track.id@
                    &&& t.format@ == "flac"@
                    &&& flac_stream(
                        decoded.samples@,
                        decoded.sample_rate,
                        decoded.bits_per_sample,
                        decoded.channels,
                    ).len() > 0
                    &&& well_chunked(
                        chunks_view(t.chunks@),
                        flac_stream(
                            decoded.samples@,
                            decoded.sample_rate,
                            decoded.bits_per_sample,
                            decoded.channels,
                        ),
                        DEFAULT_CHUNK_SIZE as int,
                        spec_bytes_per_frame(
                            Some(decoded.channels as u16),
                            Some(decoded.bits_per_sample as u16),
                        ),
                        Some(decoded.sample_rate),
                    )
                },
                Err(e) => e is Media,
            },
    {
        let encoded = match encode_flac(decoded) {
            Ok(e) => e,
            Err(e) => {
                return Err(e);
            },
        };
        if encoded.data.len() as u64 > u64::MAX / 1000 {
            return Err(MusFuseError::Media(String::from_str("encoded stream too large")));
        }
        let chunks = Self::chunk_bytes(
            encoded.data,
            DEFAULT_CHUNK_SIZE,
            Some(encoded.sample_rate),
            Some(encoded.channels),
            Some(encoded.bits_per_sample),
        );
        Ok(TranscodeResult { track_id: track.id.clone(), format: String::from_str("flac"), chunks })
    }
}

/// One embedded picture as plain values: whether its tag marks it as the
/// front cover, and its bytes.
#[derive(Debug, Clone, PartialEq)]
pub struct PictureInfo {
    pub is_front: bool,
    pub data: Vec<u8>,
}

/// The mathematical value of a `PictureInfo`.
pub struct PictureInfoV {
    pub is_front: bool,
    pub data: Seq<u8>,
}

impl View for PictureInfo {
    type V = PictureInfoV;

    open spec fn view(&self) -> PictureInfoV {
        PictureInfoV { is_front: self.is_front, data: self.data@ }
    }
}

/// The views of a picture vector.
pub open spec fn pictures_view(pics: Seq<PictureInfo>) -> Seq<PictureInfoV> {
    Seq::new(pics.len(), |i: int| pics[i]@)
}

/// What scanning pictures from `i` yields, carrying the first non-empty
/// non-front picture seen so far: the first non-empty front cover wins,
/// else that fallback, else nothing.
pub open spec fn spec_select_from(
    pics: Seq<PictureInfoV>,
    i: int,
    fallback: Option<Seq<u8>>,
) -> Option<Seq<u8>>
    decreases pics.len() - i,
{
    if i < 0 || i >= pics.len() {
        fallback
    } else if pics[i].data.len() == 0 {
        spec_select_from(pics, i + 1, fallback)
    } else if pics[i].is_front {
        Some(pics[i].data)
    } else if fallback is None {
        spec_select_from(pics, i + 1, Some(pics[i].data))
    } else {
        spec_select_from(pics, i + 1, fallback)
    }
}


/// A copy of the bytes.
fn clone_bytes(v: &Vec<u8>) -> (r: Vec<u8>)
    ensures
        r@ == v@,
{
    let r = subchars_u8(v, 0, v.len());
    proof {
        assert(v@.subrange(0, v@.len() as int) =~= v@);
    }
    r
}

/// What the cascade over picture groups yields: the first group that
/// selects a picture decides.
pub open spec fn spec_select_cover(groups: Seq<Seq<PictureInfoV>>, i: int) -> Option<Seq<u8>>
    decreases groups.len() - i,
{
    if i < 0 || i >= groups.len() {
        None
    } else {
        match spec_select_from(groups[i], 0, None) {
            Some(d) => Some(d),
            None => spec_select_cover(groups, i + 1),
        }
    }
}


/// The conventional external art names tried beside a track, in order,
/// then the track's own stem with each image extension.
pub open spec fn spec_candidates(dir: Seq<char>, stem: Option<Seq<char>>) -> Seq<Seq<char>> {
    let base = seq![
        crate::text::spec_join_path(dir, "cover.jpg"@),
        crate::text::spec_join_path(dir, "cover.jpeg"@),
        crate::text::spec_join_path(dir, "cover.png"@),
        crate::text::spec_join_path(dir, "cover.webp"@),
        crate::text::spec_join_path(dir, "folder.jpg"@),
        crate::text::spec_join_path(dir, "folder.jpeg"@),
        crate::text::spec_join_path(dir, "folder.png"@),
        crate::text::spec_join_path(dir, "AlbumArtSmall.jpg"@),
    ];
    match stem {
        None => base,
        Some(st) => base + seq![
            crate::text::spec_join_path(dir, st + ".jpg"@),
            crate::text::spec_join_path(dir, st + ".jpeg"@),
            crate::text::spec_join_path(dir, st + ".png"@),
            crate::text::spec_join_path(dir, st + ".webp"@),
        ],
    }
}


/// The default cover extractor: selection over embedded pictures and the
/// conventional external names; its caller reads tags and files and
/// hands their contents in as plain values.
pub struct DefaultCoverExtractor;

impl DefaultCoverExtractor {
    /// Builds the default extractor.
    pub fn new() -> (r: DefaultCoverExtractor) {
        DefaultCoverExtractor
    }

    /// Picks a picture: a non-empty picture marked as front cover is
    /// preferred; otherwise the first non-empty picture.
    pub fn select_picture(pics: &Vec<PictureInfo>) -> (r: Option<Vec<u8>>)
        ensures
            match r {
                Some(d) => spec_select_from(pictures_view(pics@), 0, None) == Some(d@),
                None => spec_select_from(pictures_view(pics@), 0, None) is None,
            },
    {
        let ghost pv = pictures_view(pics@);
        let mut fallback: Option<Vec<u8>> = None;
        let mut i: usize = 0;
        while i < pics.len()
            invariant
                pv == pictures_view(pics@),
                pv.len() == pics@.len(),
                i <= pv.len(),
                spec_select_from(pv, 0, None) == spec_select_from(
                    pv,
                    i as int,
                    match fallback {
                        Some(d) => Some(d@),
                        None => None,
                    },
                ),
            decreases pv.len() - i,
        {
            let n = pics[i].data.len();
            if n > 0 {
                if pics[i].is_front {
                    let d = clone_bytes(&pics[i].data);
                    return Some(d);
                }
                if fallback.is_none() {
                    fallback = Some(clone_bytes(&pics[i].data));
                }
            }
            i = i + 1;
        }
        fallback
    }

    /// Picks a cover over groups of embedded pictures, in priority order
    /// (primary tag, then first tag, then the remaining tags): the first
    /// group that selects a picture decides.
    pub fn select_cover(groups: &Vec<Vec<PictureInfo>>) -> (r: Option<Vec<u8>>)
        ensures
            ({
                let gv = Seq::new(groups@.len(), |i: int| pictures_view(groups@[i]@));
                match r {
                    Some(d) => spec_select_cover(gv, 0) == Some(d@),
                    None => spec_select_cover(gv, 0) is None,
                }
            }),
    {
        let ghost gv = Seq::new(groups@.len(), |i: int| pictures_view(groups@[i]@));
        let mut i: usize = 0;
        while i < groups.len()
            invariant
                gv == Seq::new(groups@.len(), |k: int| pictures_view(groups@[k]@)),
                gv.len() == groups@.len(),
                i <= gv.len(),
                spec_select_cover(gv, 0) == spec_select_cover(gv, i as int),
            decreases gv.len() - i,
        {
            match Self::select_picture(&groups[i]) {
                Some(d) => {
                    return Some(d);
                },
                None => {},
            }
            i = i + 1;
        }
        None
    }

    /// Enumerates the candidate external art paths for a track in `dir` with
    /// the given file stem.
    pub fn candidate_paths(dir: &String, stem: Option<&String>) -> (r: Vec<String>)
        ensures
            Seq::new(r@.len(), |i: int| r@[i]@) == spec_candidates(
                dir@,
                match stem {
                    Some(s) => Some(s@),
                    None => None,
                },
            ),
    {
        let dc = to_chars(dir.as_str());
        let mut out: Vec<String> = Vec::new();
        let names = ["cover.jpg", "cover.jpeg", "cover.png", "cover.webp", "folder.jpg",
            "folder.jpeg", "folder.png", "AlbumArtSmall.jpg"];
        let mut k: usize = 0;
        while k < 8
            invariant
                dc@ == dir@,
                k <= 8,
                names@.len() == 8,
                names@[0]@ == "cover.jpg"@,
                names@[1]@ == "cover.jpeg"@,
                names@[2]@ == "cover.png"@,
                names@[3]@ == "cover.webp"@,
                names@[4]@ == "folder.jpg"@,
                names@[5]@ == "folder.jpeg"@,
                names@[6]@ == "folder.png"@,
                names@[7]@ == "AlbumArtSmall.jpg"@,
                out@.len() == k as int,
                forall|i: int|
                    0 <= i < k as int ==> (#[trigger] out@[i])@ == crate::text::spec_join_path(
                        dir@,
                        names@[i]@,
                    ),
            decreases 8 - k,
        {
            let nc = to_chars(names[k]);
            let joined = join_path(&dc, &nc);
            out.push(chars_to_string(&joined));
            k = k + 1;
        }
        match stem {
            None => {
                proof {
                    assert(Seq::new(out@.len(), |i: int| out@[i]@) =~= spec_candidates(dir@, None));
                }
                out
            },
            Some(st) => {
                let sc = to_chars(st.as_str());
                let exts = [".jpg", ".jpeg", ".png", ".webp"];
                let mut k2: usize = 0;
                while k2 < 4
                    invariant
                        dc@ == dir@,
                        sc@ == st@,
                        k2 <= 4,
                        exts@.len() == 4,
                        exts@[0]@ == ".jpg"@,
                        exts@[1]@ == ".jpeg"@,
                        exts@[2]@ == ".png"@,
                        exts@[3]@ == ".webp"@,
                        out@.len() == 8 + k2 as int,
                        forall|i: int|
                            0 <= i < 8 ==> (#[trigger] out@[i])@ == spec_candidates(dir@, Some(st@))[i],
                        forall|i: int|
                            8 <= i < 8 + k2 as int ==> (#[trigger] out@[i])@ == spec_candidates(
                                dir@,
                                Some(st@),
                            )[i],
                    decreases 4 - k2,
                {
                    let mut name = subchars(&sc, 0, sc.len());
                    proof {
                        assert(name@ =~= st@);
                    }
                    let ec = to_chars(exts[k2]);
                    push_chars(&mut name, &ec);
                    let joined = join_path(&dc, &name);
                    out.push(chars_to_string(&joined));
                    k2 = k2 + 1;
                }
                proof {
                    assert(Seq::new(out@.len(), |i: int| out@[i]@) =~= spec_candidates(
                        dir@,
                        Some(st@),
                    ));
                }
                out
            },
        }
    }
}

} // verus!
