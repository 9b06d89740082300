use std::cell::Cell;

use musfuse::config::{
    ConfigValidationError, KvBackendKind, LosslessStrategy, MountConfig, PolicyConfig, ScanMode,
    SourceConfig,
};
use musfuse::error::MusFuseError;
use musfuse::mount::{MountContext, MountEvent, MountProvider, MountStatus, PlatformAdapter};

struct OkAdapter;

impl PlatformAdapter for OkAdapter {
    fn prepare_environment(&self, _config: &MountConfig) -> Result<(), MusFuseError> {
        Ok(())
    }

    fn mount(&self, _config: &MountConfig) -> Result<(), MusFuseError> {
        Ok(())
    }

    fn unmount(&self, _mount_point: &String) -> Result<(), MusFuseError> {
        Ok(())
    }
}

struct FailingMountAdapter;

impl PlatformAdapter for FailingMountAdapter {
    fn prepare_environment(&self, _config: &MountConfig) -> Result<(), MusFuseError> {
        Ok(())
    }

    fn mount(&self, _config: &MountConfig) -> Result<(), MusFuseError> {
        Err(MusFuseError::Mount(String::from("mount failed")))
    }

    fn unmount(&self, _mount_point: &String) -> Result<(), MusFuseError> {
        Ok(())
    }
}

struct RecordingAdapter {
    unmounted_at: Cell<Option<String>>,
}

impl PlatformAdapter for RecordingAdapter {
    fn prepare_environment(&self, _config: &MountConfig) -> Result<(), MusFuseError> {
        Ok(())
    }

    fn mount(&self, _config: &MountConfig) -> Result<(), MusFuseError> {
        Ok(())
    }

    fn unmount(&self, mount_point: &String) -> Result<(), MusFuseError> {
        self.unmounted_at.set(Some(mount_point.clone()));
        Ok(())
    }
}

fn sample_config() -> MountConfig {
    MountConfig {
        sources: vec![SourceConfig {
            path: String::from("C:/Music"),
            recursive: true,
            watch: true,
        }],
        mount_point: String::from("M:"),
        cache_dir: Some(String::from("C:/MusFuse/cache")),
        kv_backend: KvBackendKind::Sled,
        policies: PolicyConfig {
            lossless_strategy: LosslessStrategy::ConvertToFlac,
            lossy_passthrough: true,
        },
        scan_mode: ScanMode::Lazy,
    }
}

#[test]
fn mount_invokes_adapter_and_updates_status() {
    let mut provider = MountProvider::new(OkAdapter);
    let ctx = MountContext::new(sample_config());

    provider.mount(ctx).expect("mount should succeed");
    assert_eq!(provider.status(), MountStatus::Mounted);

    let events = provider.take_events();
    assert_eq!(events, vec![MountEvent::Mounted]);
}

#[test]
fn unmount_invokes_adapter_and_resets_status() {
    let mut provider = MountProvider::new(RecordingAdapter { unmounted_at: Cell::new(None) });
    let ctx = MountContext::new(sample_config());

    provider.mount(ctx).unwrap();
    provider.unmount().expect("unmount should succeed");
    assert_eq!(provider.status(), MountStatus::Unmounted);
    let events = provider.take_events();
    assert_eq!(events, vec![MountEvent::Mounted, MountEvent::Unmounted]);
}

#[test]
fn mount_failure_moves_to_fault_state() {
    let mut provider = MountProvider::new(FailingMountAdapter);
    let ctx = MountContext::new(sample_config());

    let err = provider.mount(ctx).expect_err("should fail");
    assert!(matches!(err, MusFuseError::Mount(_)));

    match provider.status() {
        MountStatus::Faulted(reason) => assert!(reason.contains("mount failed")),
        other => panic!("unexpected status {other:?}"),
    }

    match provider.take_events().pop() {
        Some(MountEvent::Fault(reason)) => assert!(reason.contains("mount failed")),
        other => panic!("unexpected event {other:?}"),
    }
}

#[test]
fn mount_while_mounted_is_rejected_without_change() {
    let mut provider = MountProvider::new(OkAdapter);
    provider.mount(MountContext::new(sample_config())).unwrap();
    let _ = provider.take_events();

    let err = provider
        .mount(MountContext::new(sample_config()))
        .expect_err("second mount must be rejected");
    assert_eq!(err, MusFuseError::Mount(String::from("already mounted")));
    assert_eq!(provider.status(), MountStatus::Mounted);
    assert!(provider.take_events().is_empty());
}

#[test]
fn unmount_from_unmounted_is_a_noop_success() {
    let mut provider = MountProvider::new(OkAdapter);
    provider.unmount().expect("no-op unmount succeeds");
    assert_eq!(provider.status(), MountStatus::Unmounted);
    assert!(provider.take_events().is_empty());
}

#[test]
fn faulted_mount_can_be_retried() {
    let mut provider = MountProvider::new(FailingMountAdapter);
    let _ = provider.mount(MountContext::new(sample_config()));
    assert!(matches!(provider.status(), MountStatus::Faulted(_)));
    let err = provider
        .mount(MountContext::new(sample_config()))
        .expect_err("still failing");
    assert!(matches!(err, MusFuseError::Mount(_)));
    assert!(matches!(provider.status(), MountStatus::Faulted(_)));
}

#[test]
fn unmount_after_faulted_mount_reports_the_state_change() {
    let mut provider = MountProvider::new(FailingMountAdapter);
    let _ = provider.mount(MountContext::new(sample_config()));
    let _ = provider.take_events();

    provider.unmount().expect("recovery unmount succeeds");
    assert_eq!(provider.status(), MountStatus::Unmounted);
    assert_eq!(provider.take_events(), vec![MountEvent::Unmounted]);
}

#[test]
fn config_validation_rejects_bad_configs() {
    let mut c = sample_config();
    assert_eq!(c.validate(), Ok(()));
    c.sources.clear();
    assert_eq!(c.validate(), Err(ConfigValidationError::EmptySources));
    let mut c2 = sample_config();
    c2.mount_point = String::new();
    assert_eq!(c2.validate(), Err(ConfigValidationError::InvalidMountPoint));
}
