//! The names most callers want in scope.

pub use crate::config::{
    KvBackendKind, LosslessStrategy, MountConfig, PolicyConfig, ScanMode, SourceConfig,
};
pub use crate::error::MusFuseError;
pub use crate::mount::{MountContext, MountEvent, MountProvider, MountStatus, PlatformAdapter};
pub use crate::policy::AudioFormatPolicy;
