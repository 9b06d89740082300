//! The WinFsp-shaped platform adapter: the host boundary it drives and
//! the time conversion its file metadata uses.

use vstd::prelude::*;

use crate::config::MountConfig;
use crate::error::MusFuseError;
use crate::mount::PlatformAdapter;

verus! {

/// The handle a host hands back for an active mount.
#[derive(Debug, Clone, PartialEq)]
pub struct WinFspMountHandle {
    pub mount_point: String,
}

/// The host boundary: driver installation, mount and unmount. Its
/// implementation wraps the OS driver binding and lives with the caller.
pub trait WinFspHost {
    /// Checks that the driver is installed and ready.
    fn ensure_installed(&self) -> Result<(), MusFuseError>;

    /// Mounts and returns the handle.
    fn mount(&self, config: &MountConfig) -> Result<WinFspMountHandle, MusFuseError>;

    /// Unmounts the filesystem at `mount_point`.
    fn unmount(&self, mount_point: &String) -> Result<(), MusFuseError>;
}

/// The platform adapter over a host.
pub struct WinFspAdapter<H: WinFspHost> {
    host: H,
}

impl<H: WinFspHost> WinFspAdapter<H> {
    /// The host this adapter drives.
    pub closed spec fn spec_host(&self) -> H {
        self.host
    }

    /// Wraps a host.
    pub fn new(host: H) -> (r: WinFspAdapter<H>)
        ensures
            r.spec_host() == host,
    {
        WinFspAdapter { host }
    }
}

impl<H: WinFspHost> PlatformAdapter for WinFspAdapter<H> {
    /// An empty mount point is rejected before the host is asked to
    /// prepare anything; otherwise the host's answer passes through.
    fn prepare_environment(&self, config: &MountConfig) -> (r: Result<(), MusFuseError>)
        ensures
            config.mount_point@.len() == 0 ==> (r matches Err(e) && e matches MusFuseError::Mount(
                m,
            ) && m@ == "missing mount point"@),
    {
        if config.mount_point.as_str().is_empty() {
            return Err(MusFuseError::Mount(String::from_str("missing mount point")));
        }
        self.host.ensure_installed()
    }

    fn mount(&self, config: &MountConfig) -> Result<(), MusFuseError> {
        match self.host.mount(config) {
            Ok(_handle) => Ok(()),
            Err(e) => Err(e),
        }
    }

    fn unmount(&self, mount_point: &String) -> Result<(), MusFuseError> {
        self.host.unmount(mount_point)
    }
}

/// The difference between the Windows file-time epoch (1601) and the Unix
/// epoch (1970), in 100-nanosecond ticks.
pub const UNIX_EPOCH_IN_FILETIME: u64 = 116444736000000000;

/// File-time ticks per second.
pub const TICKS_PER_SECOND: u64 = 10000000;

/// Converts a duration since the Unix epoch to a Windows file time:
/// 100-nanosecond ticks since 1601. The bound keeps the tick count inside
/// a `u64`.
pub fn systemtime_to_filetime(secs: u64, subsec_nanos: u32) -> (r: u64)
    requires
        subsec_nanos < 1000000000,
        secs as int * TICKS_PER_SECOND as int + subsec_nanos as int / 100
            + UNIX_EPOCH_IN_FILETIME as int <= u64::MAX as int,
    ensures
        r as int == UNIX_EPOCH_IN_FILETIME as int + secs as int * TICKS_PER_SECOND as int
            + subsec_nanos as int / 100,
{
    let ticks: u64 = secs * TICKS_PER_SECOND + (subsec_nanos / 100) as u64;
    UNIX_EPOCH_IN_FILETIME + ticks
}

} // verus!
