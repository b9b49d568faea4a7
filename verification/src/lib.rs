//! Hotplug supervision for containers: a verified model of the per-container
//! device-access filter, the libudev uevent wire format, the device monitor's
//! de-duplication, the supervisor's run loop decisions, and the small parsers
//! (device selectors, symlink rules, id-maps, udev escapes) around them.

mod access;
mod filter;
mod uevent;
mod escape;
mod idmap;
mod device;
mod parse;
mod symlink;
mod monitor;
mod hotplug;
mod supervisor;
pub mod runc;
mod cgroup1;
mod logfmt;
mod logger;
mod cli;

pub use access::Access;
pub use access::DeviceType;
pub use filter::FilterMap;
pub use filter::FilterError;
pub use filter::FilterEntry;
pub use uevent::UdevSender;
pub use uevent::UeventError;
pub use escape::unescape_devnode;
pub use escape::InvalidEscapeError;
pub use idmap::IdMap;
pub use idmap::IdMapParseError;
pub use device::Device;
pub use device::DevNode;
pub use device::dev_major_minor;
pub use device::str_eq;
pub use parse::DeviceRef;
pub use parse::DeviceKind;
pub use parse::SelectorParseError;
pub use parse::is_hex4;
pub use symlink::Symlink;
pub use symlink::SymlinkDevice;
pub use monitor::DeviceMonitor;
pub use monitor::DeviceEvent;
pub use hotplug::HotPlug;
pub use hotplug::AttachedDevice;
pub use hotplug::DeviceOp;
pub use supervisor::Supervisor;
pub use supervisor::Event;
pub use supervisor::LoopAction;
pub use supervisor::resolve_exit_code;
pub use supervisor::DeviceSummary;
pub use supervisor::HotplugDeviceSummary;
pub use supervisor::HotPlugEvent;
pub use cgroup1::DeviceAccessControllerV1;
pub use logfmt::LogFormat;
pub use logger::LogLevel;
pub use logger::ReplaceableLogger;
pub use logger::map_log_level;
pub use logger::syslog_priority;
pub use cli::Args;
pub use cli::Action;
pub use cli::Run;
