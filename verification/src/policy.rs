//! Selection of the audio format policy a track is served under.

use vstd::prelude::*;

use crate::config::{LosslessStrategy, PolicyConfig};
use crate::text::{char_from_u32, eq_chars, to_chars};

verus! {

/// How a track's bytes are produced: served as they are (lossy or
/// lossless), or decoded and re-encoded to FLAC.
#[derive(Debug, Clone, Copy, PartialEq, Eq, Structural)]
pub enum AudioFormatPolicy {
    PassthroughLossy,
    PassthroughLossless,
    ConvertLossless,
}

/// `c` with an ASCII upper-case letter folded to lower case.
pub open spec fn lower_char(c: char) -> char {
    if 65 <= c as u32 && c as u32 <= 90 {
        ((c as u32 + 32) as u32) as char
    } else {
        c
    }
}

/// `s` with every ASCII upper-case letter folded to lower case, as
/// `str::to_ascii_lowercase` folds it.
pub open spec fn lower_seq(s: Seq<char>) -> Seq<char> {
    Seq::new(s.len(), |i: int| lower_char(s[i]))
}

/// Folds ASCII upper-case letters of `v` to lower case.
pub fn to_lower(v: &Vec<char>) -> (r: Vec<char>)
    ensures
        r@ == lower_seq(v@),
{
    let mut r: Vec<char> = Vec::new();
    let mut i: usize = 0;
    while i < v.len()
        invariant
            i <= v@.len(),
            r@.len() == i as int,
            forall|j: int| 0 <= j < i as int ==> r@[j] == lower_char(v@[j]),
        decreases v@.len() - i,
    {
        let c = v[i];
        let u = c as u32;
        if 65 <= u && u <= 90 {
            let o = char_from_u32(u + 32);
            proof {
                assert(o.is_some());
            }
            let lc = o.unwrap();
            proof {
                vstd::utf8::char_u32_cast(lc, (u + 32) as u32);
            }
            r.push(lc);
        } else {
            r.push(c);
        }
        i = i + 1;
    }
    proof {
        assert(r@ =~= lower_seq(v@));
    }
    r
}

/// Whether a lower-cased extension names a lossy container: one of `mp3`,
/// `aac`, `ogg`, `opus`, `m4a`.
pub open spec fn is_lossy_ext(low: Seq<char>) -> bool {
    low == "mp3"@ || low == "aac"@ || low == "ogg"@ || low == "opus"@ || low == "m4a"@
}

/// Which policy an extension selects under a configuration: a lossy
/// extension always passes through; anything else follows the configured
/// lossless strategy.
pub open spec fn spec_from_extension(ext: Seq<char>, config: PolicyConfig) -> AudioFormatPolicy {
    if is_lossy_ext(lower_seq(ext)) {
        AudioFormatPolicy::PassthroughLossy
    } else {
        match config.lossless_strategy {
            LosslessStrategy::Passthrough => AudioFormatPolicy::PassthroughLossless,
            LosslessStrategy::ConvertToFlac => AudioFormatPolicy::ConvertLossless,
        }
    }
}

impl AudioFormatPolicy {
    /// Selects the policy for a file extension: extensions in the lossy
    /// set map to lossy passthrough whatever the configuration; all others
    /// follow the configured lossless strategy.
    pub fn from_extension(ext: &str, config: &PolicyConfig) -> (r: AudioFormatPolicy)
        ensures
            r == spec_from_extension(ext@, *config),
    {
        let ec = to_chars(ext);
        let low = to_lower(&ec);
        let mp3 = to_chars("mp3");
        let aac = to_chars("aac");
        let ogg = to_chars("ogg");
        let opus = to_chars("opus");
        let m4a = to_chars("m4a");
        if eq_chars(&low, &mp3) || eq_chars(&low, &aac) || eq_chars(&low, &ogg) || eq_chars(
            &low,
            &opus,
        ) || eq_chars(&low, &m4a) {
            AudioFormatPolicy::PassthroughLossy
        } else {
            match config.lossless_strategy {
                LosslessStrategy::Passthrough => AudioFormatPolicy::PassthroughLossless,
                LosslessStrategy::ConvertToFlac => AudioFormatPolicy::ConvertLossless,
            }
        }
    }
}

} // verus!
