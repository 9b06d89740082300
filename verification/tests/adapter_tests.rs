use std::cell::Cell;

use musfuse::adapter::{systemtime_to_filetime, WinFspAdapter, WinFspHost, WinFspMountHandle};
use musfuse::config::{
    KvBackendKind, LosslessStrategy, MountConfig, PolicyConfig, ScanMode, SourceConfig,
};
use musfuse::error::MusFuseError;
use musfuse::mount::PlatformAdapter;

struct StubHost {
    installed: Cell<bool>,
    unmounted_at: Cell<Option<String>>,
}

impl StubHost {
    fn new() -> StubHost {
        StubHost { installed: Cell::new(false), unmounted_at: Cell::new(None) }
    }
}

impl WinFspHost for StubHost {
    fn ensure_installed(&self) -> Result<(), MusFuseError> {
        self.installed.set(true);
        Ok(())
    }

    fn mount(&self, config: &MountConfig) -> Result<WinFspMountHandle, MusFuseError> {
        Ok(WinFspMountHandle { mount_point: config.mount_point.clone() })
    }

    fn unmount(&self, mount_point: &String) -> Result<(), MusFuseError> {
        self.unmounted_at.set(Some(mount_point.clone()));
        Ok(())
    }
}

fn sample_config() -> MountConfig {
    MountConfig {
        sources: vec![SourceConfig { path: String::from("C:/Music"), recursive: true, watch: false }],
        mount_point: String::from("M:"),
        cache_dir: None,
        kv_backend: KvBackendKind::Sled,
        policies: PolicyConfig {
            lossless_strategy: LosslessStrategy::ConvertToFlac,
            lossy_passthrough: true,
        },
        scan_mode: ScanMode::Lazy,
    }
}

#[test]
fn prepare_environment_calls_host() {
    let adapter = WinFspAdapter::new(StubHost::new());
    adapter
        .prepare_environment(&sample_config())
        .expect("prepare should succeed");
}

#[test]
fn prepare_environment_fails_when_mount_point_missing() {
    let adapter = WinFspAdapter::new(StubHost::new());
    let mut config = sample_config();
    config.mount_point = String::new();
    let err = adapter.prepare_environment(&config).expect_err("should fail");
    assert!(matches!(err, MusFuseError::Mount(_)));
}

#[test]
fn mount_calls_host_and_discards_handle() {
    let adapter = WinFspAdapter::new(StubHost::new());
    adapter.mount(&sample_config()).expect("mount should succeed");
}

#[test]
fn unmount_calls_host() {
    let adapter = WinFspAdapter::new(StubHost::new());
    adapter
        .unmount(&String::from("M:"))
        .expect("unmount should succeed");
}

#[test]
fn filetime_conversion_counts_ticks_from_1601() {
    assert_eq!(systemtime_to_filetime(0, 0), 116444736000000000);
    assert_eq!(systemtime_to_filetime(1, 250), 116444736010000002);
}
