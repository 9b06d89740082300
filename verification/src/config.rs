//! Mount configuration and its validation.

use vstd::prelude::*;

verus! {

/// A directory from which audio sources are scanned.
#[derive(Debug, Clone, PartialEq)]
pub struct SourceConfig {
    pub path: String,
    pub recursive: bool,
    pub watch: bool,
}

/// Which embedded key-value backend the store is built on.
#[derive(Debug, Clone, Copy, PartialEq, Eq, Structural)]
pub enum KvBackendKind {
    Sled,
    RocksDb,
    Sqlite,
    Redis,
}

/// Whether the library is scanned up front or on demand.
#[derive(Debug, Clone, Copy, PartialEq, Eq, Structural)]
pub enum ScanMode {
    Eager,
    Lazy,
}

/// How lossless sources are served: byte passthrough or conversion to FLAC.
#[derive(Debug, Clone, Copy, PartialEq, Eq, Structural)]
pub enum LosslessStrategy {
    Passthrough,
    ConvertToFlac,
}

/// The format policies a mount applies to its tracks.
#[derive(Debug, Clone, Copy, PartialEq, Eq, Structural)]
pub struct PolicyConfig {
    pub lossless_strategy: LosslessStrategy,
    pub lossy_passthrough: bool,
}

/// Why a configuration was rejected.
#[derive(Debug, Clone, Copy, PartialEq, Eq, Structural)]
pub enum ConfigValidationError {
    EmptySources,
    InvalidMountPoint,
}

impl ConfigValidationError {
    pub open spec fn spec_message(&self) -> Seq<char> {
        match self {
            ConfigValidationError::EmptySources => "no source directories configured"@,
            ConfigValidationError::InvalidMountPoint => "mount point must be provided"@,
        }
    }

    pub fn message(&self) -> (r: String)
        ensures
            r@ == self.spec_message(),
    {
        match self {
            ConfigValidationError::EmptySources => String::from_str(
                "no source directories configured",
            ),
            ConfigValidationError::InvalidMountPoint => String::from_str(
                "mount point must be provided",
            ),
        }
    }
}

/// Everything a mount needs: sources, mount point, backend and policies.
#[derive(Debug, Clone, PartialEq)]
pub struct MountConfig {
    pub sources: Vec<SourceConfig>,
    pub mount_point: String,
    pub cache_dir: Option<String>,
    pub kv_backend: KvBackendKind,
    pub policies: PolicyConfig,
    pub scan_mode: ScanMode,
}

impl MountConfig {
    /// What `validate` decides: a configuration is rejected exactly when it
    /// names no sources or an empty mount point.
    pub open spec fn spec_validate(&self) -> Result<(), ConfigValidationError> {
        if self.sources@.len() == 0 {
            Err(ConfigValidationError::EmptySources)
        } else if self.mount_point@.len() == 0 {
            Err(ConfigValidationError::InvalidMountPoint)
        } else {
            Ok(())
        }
    }

    /// Rejects a configuration with no sources or with an empty mount point,
    /// in that order; accepts everything else.
    pub fn validate(&self) -> (r: Result<(), ConfigValidationError>)
        ensures
            r == self.spec_validate(),
    {
        if self.sources.is_empty() {
            return Err(ConfigValidationError::EmptySources);
        }
        if self.mount_point.as_str().is_empty() {
            return Err(ConfigValidationError::InvalidMountPoint);
        }
        Ok(())
    }
}

} // verus!
