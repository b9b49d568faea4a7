//! The supervisor's run-loop decisions: what one event means for the
//! container, when the readiness byte is written, when the container is
//! stopped because a required device vanished, and which exit code the
//! supervisor finally reports.

use vstd::prelude::*;

use crate::device::str_eq;
use crate::hotplug::AttachedDevice;

verus! {

/// The basic facts about one device, as the docker-flow supervisor logs
/// them: syspath, device numbers and devnode path.
#[derive(Debug, Clone, PartialEq, Eq)]
pub struct DeviceSummary {
    pub syspath: String,
    pub major: u64,
    pub minor: u64,
    pub devnode: String,
}

/// The summary of one hotplugged device: syspath, device numbers, devnode
/// path, and the symlink created for it, if any.
#[derive(Debug)]
pub struct HotplugDeviceSummary {
    pub syspath: String,
    pub major: u64,
    pub minor: u64,
    pub devnode: String,
    pub symlink: Option<String>,
}

impl HotplugDeviceSummary {
    /// The summary's parts, in one tuple.
    pub fn as_tuple(&self) -> (r: (&String, (u64, u64), &String, Option<&String>))
        ensures
            r.0@ == self.syspath@,
            r.1.0 == self.major && r.1.1 == self.minor,
            r.2@ == self.devnode@,
            (match r.3 {
                Some(l) => self.symlink matches Some(s) && l@ == s@,
                None => self.symlink is None,
            }),
    {
        let link = match &self.symlink {
            Some(l) => Some(l),
            None => None,
        };
        (&self.syspath, (self.major, self.minor), &self.devnode, link)
    }
}

/// What the supervisor reports about one step of its work.
#[derive(Debug)]
pub enum HotPlugEvent {
    /// Required devices were absent when the snapshot ended.
    RequiredMissing(Vec<DeviceSummary>),
    /// A new device was attached.
    Add(HotplugDeviceSummary),
    /// A device reappeared under a syspath that was still attached: the old
    /// attachment is reversed, then the new one made.
    ReAdd(HotplugDeviceSummary, HotplugDeviceSummary),
    /// An attached device was removed.
    Remove(HotplugDeviceSummary),
    /// A required device was removed; the container is being stopped.
    RequiredRemoved(HotplugDeviceSummary),
}

/// One event of the supervisor's merged stream.
#[derive(Debug)]
pub enum Event {
    /// A device was attached.
    Attach(AttachedDevice),
    /// A device was detached.
    Detach(AttachedDevice),
    /// The snapshot is processed; the container may be reported ready.
    Initialized,
    /// The container's cgroup became unpopulated.
    Stopped,
}

/// What the loop must do for one event.
#[derive(Debug, Clone, Copy, PartialEq, Eq, Structural)]
pub enum LoopAction {
    /// Nothing; keep receiving.
    Continue,
    /// Write the readiness byte to the parent.
    Notify,
    /// Kill the container, wait for it, and exit with the root-unplugged
    /// code: a required device vanished.
    StopContainer,
    /// Leave the loop: the container exited by itself.
    Exit,
}

/// The loop saw a second `Initialized` event.
#[derive(Debug, Clone, Copy, PartialEq, Eq, Structural)]
pub struct DuplicateInitError;

/// Whether `paths` holds `path`.
pub open spec fn contains_path(paths: Seq<Seq<char>>, path: Seq<char>) -> bool {
    exists|i: int| 0 <= i < paths.len() && paths[i] == path
}

/// The supervisor's loop state: the required syspaths whose removal stops
/// the container, whether readiness was already reported, and whether the
/// loop has decided to end.
pub struct Supervisor {
    required: Vec<String>,
    notified: bool,
    finished: bool,
}

impl Supervisor {
    /// The syspaths of the required devices.
    pub closed spec fn spec_required(self) -> Seq<Seq<char>> {
        self.required.deep_view()
    }

    /// Whether the readiness byte was already written.
    pub closed spec fn spec_notified(self) -> bool {
        self.notified
    }

    /// Whether the loop has decided to end.
    pub closed spec fn spec_finished(self) -> bool {
        self.finished
    }

    /// A fresh loop state with the given required syspaths.
    pub fn new(required: Vec<String>) -> (r: Supervisor)
        ensures
            r.spec_required() == required.deep_view(),
            !r.spec_notified(),
            !r.spec_finished(),
    {
        Supervisor { required, notified: false, finished: false }
    }

    fn required_contains(&self, path: &str) -> (r: bool)
        ensures
            r == contains_path(self.spec_required(), path@),
    {
        let n = self.required.len();
        for i in 0..n
            invariant
                n == self.required@.len(),
                forall|j: int| 0 <= j < i ==> self.spec_required()[j] != path@,
        {
            proof {
                assert(self.spec_required()[i as int] == self.required@[i as int]@);
            }
            if str_eq(self.required[i].as_str(), path) {
                return true;
            }
        }
        false
    }

    /// Decide what one event means. `Initialized` reports readiness exactly
    /// once — a second one is an error; a `Detach` of a required syspath
    /// stops the container; `Stopped` ends the loop; everything else
    /// continues. `StopContainer` and `Exit` finish the loop, so each can
    /// be produced at most once per supervisor.
    pub fn step(&mut self, event: &Event) -> (r: Result<LoopAction, DuplicateInitError>)
        requires
            !old(self).spec_finished(),
        ensures
            final(self).spec_required() == old(self).spec_required(),
            (match event {
                Event::Initialized => {
                    if old(self).spec_notified() {
                        r is Err
                    } else {
                        r == Ok::<LoopAction, DuplicateInitError>(LoopAction::Notify)
                            && final(self).spec_notified()
                    }
                },
                Event::Detach(att) => {
                    &&& r is Ok
                    &&& (r->Ok_0 == LoopAction::StopContainer) == contains_path(
                        old(self).spec_required(),
                        att.device.spec_syspath(),
                    )
                    &&& final(self).spec_notified() == old(self).spec_notified()
                },
                Event::Attach(_) => r == Ok::<LoopAction, DuplicateInitError>(LoopAction::Continue)
                    && final(self).spec_notified() == old(self).spec_notified(),
                Event::Stopped => r == Ok::<LoopAction, DuplicateInitError>(LoopAction::Exit)
                    && final(self).spec_notified() == old(self).spec_notified(),
            }),
            final(self).spec_finished() == (r matches Ok(a) && (a == LoopAction::StopContainer || a
                == LoopAction::Exit)),
    {
        match event {
            Event::Initialized => {
                if self.notified {
                    Err(DuplicateInitError)
                } else {
                    self.notified = true;
                    Ok(LoopAction::Notify)
                }
            },
            Event::Detach(att) => {
                if self.required_contains(att.device.syspath().as_str()) {
                    self.finished = true;
                    Ok(LoopAction::StopContainer)
                } else {
                    Ok(LoopAction::Continue)
                }
            },
            Event::Attach(_) => Ok(LoopAction::Continue),
            Event::Stopped => {
                self.finished = true;
                Ok(LoopAction::Exit)
            },
        }
    }
}

/// Law: removing a required device stops the container exactly once. A
/// `Detach` of a required syspath yields `StopContainer` and finishes the
/// loop; a finished loop accepts no further event, so no second stop can be
/// issued by the same supervisor.
pub proof fn lemma_required_removal_stops_once(s0: Supervisor, s1: Supervisor, att: AttachedDevice, r: Result<LoopAction, DuplicateInitError>)
    requires
        !s0.spec_finished(),
        contains_path(s0.spec_required(), att.device.spec_syspath()),
        // What `step` on a `Detach` ensures:
        r is Ok,
        (r->Ok_0 == LoopAction::StopContainer) == contains_path(
            s0.spec_required(),
            att.device.spec_syspath(),
        ),
        s1.spec_finished() == (r matches Ok(a) && (a == LoopAction::StopContainer || a
            == LoopAction::Exit)),
    ensures
        r == Ok::<LoopAction, DuplicateInitError>(LoopAction::StopContainer),
        s1.spec_finished(),
{
}

/// The low byte of a container exit status, as `as u8` truncation yields
/// it.
pub open spec fn spec_low_byte(status: i64) -> u8 {
    (status & 0xff) as u8
}

/// The exit code the supervisor reports (`container_status` is the
/// container's own exit status): the configured root-unplugged code where a
/// required device vanished; otherwise the status truncated to a byte, with
/// `1` substituted when it collides with the root-unplugged code.
pub open spec fn spec_exit_code(root_unplugged: bool, container_status: i64, root_unplugged_code: u8) -> u8 {
    if root_unplugged {
        root_unplugged_code
    } else if spec_low_byte(container_status) == root_unplugged_code {
        1
    } else {
        spec_low_byte(container_status)
    }
}

/// Resolve the supervisor's exit code.
pub fn resolve_exit_code(root_unplugged: bool, container_status: i64, root_unplugged_code: u8) -> (r: u8)
    ensures
        r == spec_exit_code(root_unplugged, container_status, root_unplugged_code),
{
    if root_unplugged {
        return root_unplugged_code;
    }
    proof {
        assert(container_status & 0xff >= 0 && container_status & 0xff < 256) by (bit_vector);
    }
    let low = (container_status & 0xff) as u8;
    if low == root_unplugged_code {
        1
    } else {
        low
    }
}

} // verus!
