//! The wrapper's own command line, for the front-end that supervises a
//! container engine run directly: the root hotplug device, the symlink
//! rules, the exit code to report when the root device is unplugged, and
//! the arguments handed through to the engine.

use vstd::prelude::*;

use crate::parse::DeviceRef;
use crate::symlink::Symlink;

verus! {

/// One run of the wrapper.
#[derive(Debug)]
pub struct Run {
    /// The root hotplug device; its sub-tree is watched.
    pub root_device: DeviceRef,
    /// The symlink rules to apply to attached devices.
    pub symlink: Vec<Symlink>,
    /// The exit code reported when the root device is unplugged.
    pub root_unplugged_exit_code: u8,
    /// The arguments handed to the container engine.
    pub docker_args: Vec<String>,
}

/// What the wrapper was asked to do.
#[derive(Debug)]
pub enum Action {
    Run(Run),
}

/// The parsed command line.
#[derive(Debug)]
pub struct Args {
    pub action: Action,
}

} // verus!
