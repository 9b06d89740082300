//! The error kinds that the library's operations surface.

use vstd::prelude::*;

use crate::config::ConfigValidationError;

verus! {

/// An error from any of the library's subsystems: configuration checks,
/// the key-value backend, the mount lifecycle, filesystem access, media
/// decoding or encoding, or an operation with no implementation.
#[derive(Debug, Clone, PartialEq)]
pub enum MusFuseError {
    Config(ConfigValidationError),
    Kv(String),
    Mount(String),
    Io(String),
    Media(String),
    Unsupported(String),
}

impl MusFuseError {
    /// The human-readable text of this error, with its kind as a prefix.
    pub open spec fn spec_message(&self) -> Seq<char> {
        match self {
            MusFuseError::Config(e) => "configuration error: "@ + e.spec_message(),
            MusFuseError::Kv(m) => "kv backend error: "@ + m@,
            MusFuseError::Mount(m) => "mount error: "@ + m@,
            MusFuseError::Io(m) => "io error: "@ + m@,
            MusFuseError::Media(m) => "media error: "@ + m@,
            MusFuseError::Unsupported(m) => "unsupported operation: "@ + m@,
        }
    }

    pub fn message(&self) -> (r: String)
        ensures
            r@ == self.spec_message(),
    {
        match self {
            MusFuseError::Config(e) => {
                let mut s = String::from_str("configuration error: ");
                let m = e.message();
                s.append(m.as_str());
                s
            },
            MusFuseError::Kv(m) => {
                let mut s = String::from_str("kv backend error: ");
                s.append(m.as_str());
                s
            },
            MusFuseError::Mount(m) => {
                let mut s = String::from_str("mount error: ");
                s.append(m.as_str());
                s
            },
            MusFuseError::Io(m) => {
                let mut s = String::from_str("io error: ");
                s.append(m.as_str());
                s
            },
            MusFuseError::Media(m) => {
                let mut s = String::from_str("media error: ");
                s.append(m.as_str());
                s
            },
            MusFuseError::Unsupported(m) => {
                let mut s = String::from_str("unsupported operation: ");
                s.append(m.as_str());
                s
            },
        }
    }
}

} // verus!
