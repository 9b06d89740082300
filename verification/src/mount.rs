//! The mount lifecycle: one state machine per mount, driven through a
//! platform adapter, publishing an event for every state change that
//! reaches `Mounted`, `Unmounted` or `Faulted`.

use vstd::prelude::*;

use crate::config::MountConfig;
use crate::error::MusFuseError;

verus! {

/// The lifecycle states of a mount.
#[derive(Debug, PartialEq, Eq)]
pub enum MountStatus {
    Unmounted,
    Mounting,
    Mounted,
    Unmounting,
    Faulted(String),
}

/// The mathematical value of a `MountStatus`.
pub enum MountStatusV {
    Unmounted,
    Mounting,
    Mounted,
    Unmounting,
    Faulted(Seq<char>),
}

impl View for MountStatus {
    type V = MountStatusV;

    open spec fn view(&self) -> MountStatusV {
        match self {
            MountStatus::Unmounted => MountStatusV::Unmounted,
            MountStatus::Mounting => MountStatusV::Mounting,
            MountStatus::Mounted => MountStatusV::Mounted,
            MountStatus::Unmounting => MountStatusV::Unmounting,
            MountStatus::Faulted(m) => MountStatusV::Faulted(m@),
        }
    }
}

impl Clone for MountStatus {
    /// A clone carries the same status.
    fn clone(&self) -> (r: Self)
        ensures
            r@ == self@,
    {
        match self {
            MountStatus::Unmounted => MountStatus::Unmounted,
            MountStatus::Mounting => MountStatus::Mounting,
            MountStatus::Mounted => MountStatus::Mounted,
            MountStatus::Unmounting => MountStatus::Unmounting,
            MountStatus::Faulted(m) => MountStatus::Faulted(m.clone()),
        }
    }
}

/// What the mount publishes to its subscribers.
#[derive(Debug, PartialEq, Eq)]
pub enum MountEvent {
    Mounted,
    Unmounted,
    Fault(String),
}

/// The mathematical value of a `MountEvent`.
pub enum MountEventV {
    Mounted,
    Unmounted,
    Fault(Seq<char>),
}

impl View for MountEvent {
    type V = MountEventV;

    open spec fn view(&self) -> MountEventV {
        match self {
            MountEvent::Mounted => MountEventV::Mounted,
            MountEvent::Unmounted => MountEventV::Unmounted,
            MountEvent::Fault(m) => MountEventV::Fault(m@),
        }
    }
}

/// What a mount runs under: its configuration.
#[derive(Debug, Clone, PartialEq)]
pub struct MountContext {
    pub config: MountConfig,
}

impl MountContext {
    /// Wraps a configuration.
    pub fn new(config: MountConfig) -> (r: MountContext)
        ensures
            r.config == config,
    {
        MountContext { config }
    }

    /// The configured mount point.
    pub fn mount_point(&self) -> (r: &String)
        ensures
            r == &self.config.mount_point,
    {
        &self.config.mount_point
    }
}

/// The boundary to the OS driver binding: environment preparation, mount
/// and unmount. Nothing is assumed of an adapter's outcomes; the state
/// machine handles every result it may return.
pub trait PlatformAdapter {
    /// Prepares the environment for a mount.
    fn prepare_environment(&self, config: &MountConfig) -> Result<(), MusFuseError>;

    /// Performs the mount.
    fn mount(&self, config: &MountConfig) -> Result<(), MusFuseError>;

    /// Undoes the mount at `mount_point`.
    fn unmount(&self, mount_point: &String) -> Result<(), MusFuseError>;
}

/// Why a mount attempt is rejected outright in a given state, if it is.
pub open spec fn mount_rejection(st: MountStatusV) -> Option<Seq<char>> {
    match st {
        MountStatusV::Mounting => Some("mount already in progress"@),
        MountStatusV::Mounted => Some("already mounted"@),
        MountStatusV::Unmounting => Some("unmount currently in progress"@),
        _ => None,
    }
}

/// Why an unmount attempt is rejected outright in a given state, if it
/// is.
pub open spec fn unmount_rejection(st: MountStatusV) -> Option<Seq<char>> {
    match st {
        MountStatusV::Mounting => Some("cannot unmount while mounting"@),
        MountStatusV::Unmounting => Some("unmount already in progress"@),
        _ => None,
    }
}

/// The mount lifecycle state machine, parameterized by the platform
/// adapter it drives. Events accumulate in an outbox the caller drains
/// and broadcasts.
pub struct MountProvider<A: PlatformAdapter> {
    adapter: A,
    status: MountStatus,
    context: Option<MountContext>,
    events: Vec<MountEvent>,
}

impl<A: PlatformAdapter> MountProvider<A> {
    /// The adapter this provider drives.
    pub closed spec fn spec_adapter(&self) -> A {
        self.adapter
    }

    /// The current lifecycle status.
    pub closed spec fn spec_status(&self) -> MountStatusV {
        self.status@
    }

    /// The retained context of the active mount, if any.
    pub closed spec fn spec_context(&self) -> Option<MountContext> {
        self.context
    }

    /// The events published so far and not yet drained, oldest first.
    pub closed spec fn spec_events(&self) -> Seq<MountEventV> {
        Seq::new(self.events@.len(), |i: int| self.events@[i]@)
    }

    /// A provider never holds a context while unmounted, and always holds
    /// one while mounted.
    pub open spec fn wf(&self) -> bool {
        &&& (self.spec_status() is Unmounted ==> self.spec_context() is None)
        &&& (self.spec_status() is Mounted ==> self.spec_context() is Some)
    }

    /// A fresh provider: unmounted, no context, no events.
    pub fn new(adapter: A) -> (r: MountProvider<A>)
        ensures
            r.spec_adapter() == adapter,
            r.spec_status() is Unmounted,
            r.spec_context() is None,
            r.spec_events() =~= Seq::<MountEventV>::empty(),
            r.wf(),
    {
        let r = MountProvider {
            adapter,
            status: MountStatus::Unmounted,
            context: None,
            events: Vec::new(),
        };
        proof {
            assert(r.spec_events() =~= Seq::<MountEventV>::empty());
        }
        r
    }

    /// The current status.
    pub fn status(&self) -> (r: MountStatus)
        ensures
            r@ == self.spec_status(),
    {
        self.status.clone()
    }

    /// Drains the pending events, oldest first.
    pub fn take_events(&mut self) -> (r: Vec<MountEvent>)
        ensures
            Seq::new(r@.len(), |i: int| r@[i]@) == old(self).spec_events(),
            final(self).spec_events() =~= Seq::<MountEventV>::empty(),
            final(self).spec_status() == old(self).spec_status(),
            final(self).spec_context() == old(self).spec_context(),
            final(self).spec_adapter() == old(self).spec_adapter(),
            final(self).wf() == old(self).wf(),
    {
        let mut out: Vec<MountEvent> = Vec::new();
        core::mem::swap(&mut out, &mut self.events);
        proof {
            assert(self.spec_events() =~= Seq::<MountEventV>::empty());
        }
        out
    }

    /// Attempts to mount under `ctx`. In `Mounting`, `Mounted` or
    /// `Unmounting` the attempt is rejected without any change. From
    /// `Unmounted` or `Faulted` the adapter prepares and mounts: on
    /// success the status becomes `Mounted`, the context is retained and
    /// a `Mounted` event is published; on failure the status becomes
    /// `Faulted` with the adapter error's message, a `Fault` event with
    /// the same reason is published, and the error is returned.
    pub fn mount(&mut self, ctx: MountContext) -> (r: Result<(), MusFuseError>)
        requires
            old(self).wf(),
        ensures
            final(self).wf(),
            final(self).spec_adapter() == old(self).spec_adapter(),
            match mount_rejection(old(self).spec_status()) {
                Some(msg) => {
                    &&& r matches Err(e) && e matches MusFuseError::Mount(m) && m@ == msg
                    &&& final(self).spec_status() == old(self).spec_status()
                    &&& final(self).spec_context() == old(self).spec_context()
                    &&& final(self).spec_events() == old(self).spec_events()
                },
                None => match r {
                    Ok(()) => {
                        &&& final(self).spec_status() is Mounted
                        &&& final(self).spec_context() == Some(ctx)
                        &&& final(self).spec_events() == old(self).spec_events().push(
                            MountEventV::Mounted,
                        )
                    },
                    Err(e) => {
                        &&& final(self).spec_status() == MountStatusV::Faulted(e.spec_message())
                        &&& final(self).spec_context() == old(self).spec_context()
                        &&& final(self).spec_events() == old(self).spec_events().push(
                            MountEventV::Fault(e.spec_message()),
                        )
                    },
                },
            },
    {
        match &self.status {
            MountStatus::Mounting => {
                return Err(MusFuseError::Mount(String::from_str("mount already in progress")));
            },
            MountStatus::Mounted => {
                return Err(MusFuseError::Mount(String::from_str("already mounted")));
            },
            MountStatus::Unmounting => {
                return Err(MusFuseError::Mount(String::from_str("unmount currently in progress")));
            },
            _ => {},
        }
        self.status = MountStatus::Mounting;
        match self.adapter.prepare_environment(&ctx.config) {
            Err(e) => {
                return self.fault(e);
            },
            Ok(()) => {},
        }
        match self.adapter.mount(&ctx.config) {
            Err(e) => {
                return self.fault(e);
            },
            Ok(()) => {},
        }
        self.context = Some(ctx);
        self.status = MountStatus::Mounted;
        let ghost ev0 = self.spec_events();
        self.events.push(MountEvent::Mounted);
        proof {
            assert(self.spec_events() =~= ev0.push(MountEventV::Mounted));
        }
        Ok(())
    }

    /// Records a fault: the status becomes `Faulted` with the error's
    /// message, a `Fault` event with the same reason is published, and
    /// the error passes through.
    fn fault(&mut self, e: MusFuseError) -> (r: Result<(), MusFuseError>)
        ensures
            r == Result::<(), MusFuseError>::Err(e),
            final(self).spec_status() == MountStatusV::Faulted(e.spec_message()),
            final(self).spec_context() == old(self).spec_context(),
            final(self).spec_events() == old(self).spec_events().push(
                MountEventV::Fault(e.spec_message()),
            ),
            final(self).spec_adapter() == old(self).spec_adapter(),
    {
        let reason = e.message();
        let reason2 = reason.clone();
        self.status = MountStatus::Faulted(reason);
        let ghost ev0 = self.spec_events();
        self.events.push(MountEvent::Fault(reason2));
        proof {
            assert(self.spec_events() =~= ev0.push(MountEventV::Fault(e.spec_message())));
        }
        Err(e)
    }

    /// Attempts to unmount. With no retained context the provider simply
    /// returns to `Unmounted`, publishing an `Unmounted` event when that
    /// is a change of state; from `Unmounted` itself it is a silent
    /// no-op. With a context, an unmount from `Mounting` or `Unmounting`
    /// is rejected without any change; otherwise the adapter unmounts: on
    /// success the status becomes `Unmounted`, the context is cleared and
    /// an `Unmounted` event is published; on failure the status becomes
    /// `Faulted` with the adapter error's message, a `Fault` event with
    /// the same reason is published, and the error is returned.
    pub fn unmount(&mut self) -> (r: Result<(), MusFuseError>)
        requires
            old(self).wf(),
        ensures
            final(self).wf(),
            final(self).spec_adapter() == old(self).spec_adapter(),
            old(self).spec_context() is None ==> {
                &&& r is Ok
                &&& final(self).spec_status() is Unmounted
                &&& final(self).spec_context() is None
                &&& final(self).spec_events() == if old(self).spec_status() is Unmounted {
                    old(self).spec_events()
                } else {
                    old(self).spec_events().push(MountEventV::Unmounted)
                }
            },
            old(self).spec_context() is Some ==> match unmount_rejection(
                old(self).spec_status(),
            ) {
                Some(msg) => {
                    &&& r matches Err(e) && e matches MusFuseError::Mount(m) && m@ == msg
                    &&& final(self).spec_status() == old(self).spec_status()
                    &&& final(self).spec_context() == old(self).spec_context()
                    &&& final(self).spec_events() == old(self).spec_events()
                },
                None => match r {
                    Ok(()) => {
                        &&& final(self).spec_status() is Unmounted
                        &&& final(self).spec_context() is None
                        &&& final(self).spec_events() == old(self).spec_events().push(
                            MountEventV::Unmounted,
                        )
                    },
                    Err(e) => {
                        &&& final(self).spec_status() == MountStatusV::Faulted(e.spec_message())
                        &&& final(self).spec_context() == old(self).spec_context()
                        &&& final(self).spec_events() == old(self).spec_events().push(
                            MountEventV::Fault(e.spec_message()),
                        )
                    },
                },
            },
    {
        if self.context.is_none() {
            let was_unmounted = match &self.status {
                MountStatus::Unmounted => true,
                _ => false,
            };
            self.status = MountStatus::Unmounted;
            if !was_unmounted {
                let ghost ev0 = self.spec_events();
                self.events.push(MountEvent::Unmounted);
                proof {
                    assert(self.spec_events() =~= ev0.push(MountEventV::Unmounted));
                }
            }
            return Ok(());
        }
        match &self.status {
            MountStatus::Mounting => {
                return Err(MusFuseError::Mount(String::from_str("cannot unmount while mounting")));
            },
            MountStatus::Unmounting => {
                return Err(MusFuseError::Mount(String::from_str("unmount already in progress")));
            },
            _ => {},
        }
        self.status = MountStatus::Unmounting;
        let mount_point = match &self.context {
            Some(c) => c.config.mount_point.clone(),
            None => {
                return Err(MusFuseError::Mount(String::from_str("missing mount context")));
            },
        };
        match self.adapter.unmount(&mount_point) {
            Err(e) => {
                return self.fault(e);
            },
            Ok(()) => {},
        }
        self.context = None;
        self.status = MountStatus::Unmounted;
        let ghost ev0 = self.spec_events();
        self.events.push(MountEvent::Unmounted);
        proof {
            assert(self.spec_events() =~= ev0.push(MountEventV::Unmounted));
        }
        Ok(())
    }
}

} // verus!
