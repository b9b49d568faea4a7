use container_hotplug::Access;
use container_hotplug::AttachedDevice;
use container_hotplug::Device;
use container_hotplug::DeviceAccessControllerV1;
use container_hotplug::DeviceEvent;
use container_hotplug::DeviceMonitor;
use container_hotplug::DeviceOp;
use container_hotplug::DeviceType;
use container_hotplug::Event;
use container_hotplug::FilterMap;
use container_hotplug::HotPlug;
use container_hotplug::LoopAction;
use container_hotplug::LogLevel;
use container_hotplug::Supervisor;
use container_hotplug::Symlink;
use container_hotplug::dev_major_minor;
use container_hotplug::map_log_level;
use container_hotplug::resolve_exit_code;
use container_hotplug::syslog_priority;
use container_hotplug::runc;
use container_hotplug::HotplugDeviceSummary;
use container_hotplug::ReplaceableLogger;

fn makedev(major: u64, minor: u64) -> u64 {
    ((major & 0xffff_f000) << 32)
        | ((major & 0xfff) << 8)
        | ((minor & 0xffff_ff00) << 12)
        | (minor & 0xff)
}

fn usb_device(syspath: &str, devnode: &str, major: u64, minor: u64) -> Device {
    Device::from_parts(
        syspath.to_string(),
        Some("tty".to_string()),
        None,
        Some(devnode.to_string()),
        Some(makedev(major, minor)),
        vec![
            ("ID_VENDOR_ID".to_string(), "2b3e".to_string()),
            ("ID_MODEL_ID".to_string(), "c310".to_string()),
            ("ID_USB_INTERFACE_NUM".to_string(), "01".to_string()),
        ],
    )
}

fn bare_device(syspath: &str) -> Device {
    Device::from_parts(syspath.to_string(), None, None, None, None, Vec::new())
}

#[test]
fn dev_major_minor_decodes_dev_t() {
    assert_eq!(dev_major_minor(makedev(189, 0)), (189, 0));
    assert_eq!(dev_major_minor(makedev(1, 3)), (1, 3));
    assert_eq!(dev_major_minor(makedev(4095, 255)), (4095, 255));
    // Large numbers use the extended fields.
    assert_eq!(dev_major_minor(makedev(0x12345, 0xABCDE)), (0x12345, 0xABCDE));
}

#[test]
fn attach_grants_creates_and_links_in_order() {
    let rule = Symlink::from_str("usb:2b3e:c310:01=/dev/ttyACM_CW310_0").unwrap();
    let mut hotplug = HotPlug::new(vec![rule]);
    let device = usb_device("/sys/devices/fake/hub/port1", "/dev/bus/usb/001/002", 189, 0);
    let (ops, attached) = hotplug.process_add(device);
    let attached = attached.unwrap();
    assert_eq!(attached.symlinks, vec!["/dev/ttyACM_CW310_0".to_string()]);
    assert_eq!(ops.len(), 3);
    match &ops[0] {
        DeviceOp::Permission { ty, major, minor, access } => {
            assert_eq!(*ty, DeviceType::Character);
            assert_eq!((*major, *minor), (189, 0));
            assert_eq!(access.bits(), 7);
        }
        _ => panic!("expected a permission grant first"),
    }
    match &ops[1] {
        DeviceOp::Mknod { path, ty, major, minor } => {
            assert_eq!(path, "/dev/bus/usb/001/002");
            assert_eq!(*ty, DeviceType::Character);
            assert_eq!((*major, *minor), (189, 0));
        }
        _ => panic!("expected the node second"),
    }
    match &ops[2] {
        DeviceOp::Symlink { source, link } => {
            assert_eq!(source, "/dev/bus/usb/001/002");
            assert_eq!(link, "/dev/ttyACM_CW310_0");
        }
        _ => panic!("expected the symlink third"),
    }
}

#[test]
fn attach_ignores_devices_without_devnode() {
    let mut hotplug = HotPlug::new(Vec::new());
    let (ops, attached) = hotplug.process_add(bare_device("/sys/devices/fake/hub"));
    assert!(ops.is_empty());
    assert!(attached.is_none());
}

#[test]
fn add_remove_round_trip_clears_everything() {
    let rule = Symlink::from_str("usb:2b3e:c310:01=/dev/ttyACM_CW310_0").unwrap();
    let mut hotplug = HotPlug::new(vec![rule]);
    let mut filter = FilterMap::new();

    let device = usb_device("/sys/devices/fake/hub/port1", "/dev/bus/usb/001/002", 189, 0);
    let (add_ops, _) = hotplug.process_add(device);
    for op in &add_ops {
        if let DeviceOp::Permission { ty, major, minor, access } = op {
            filter.set_permission(*ty, *major, *minor, *access).unwrap();
        }
    }
    assert_eq!(filter.get(DeviceType::Character, 189, 0), Some(7));

    let report = bare_device("/sys/devices/fake/hub/port1");
    let (rm_ops, detached) = hotplug.process_remove(&report);
    let detached = detached.unwrap();
    assert_eq!(detached.symlinks, vec!["/dev/ttyACM_CW310_0".to_string()]);
    assert_eq!(rm_ops.len(), 3);
    match &rm_ops[0] {
        DeviceOp::Permission { ty, major, minor, access } => {
            assert_eq!(*ty, DeviceType::Character);
            assert_eq!((*major, *minor), (189, 0));
            assert!(access.is_empty());
        }
        _ => panic!("expected the revocation first"),
    }
    match &rm_ops[1] {
        DeviceOp::Rm { path } => assert_eq!(path, "/dev/bus/usb/001/002"),
        _ => panic!("expected the node removal second"),
    }
    match &rm_ops[2] {
        DeviceOp::Rm { path } => assert_eq!(path, "/dev/ttyACM_CW310_0"),
        _ => panic!("expected the symlink removal third"),
    }
    for op in &rm_ops {
        if let DeviceOp::Permission { ty, major, minor, access } = op {
            filter.set_permission(*ty, *major, *minor, *access).unwrap();
        }
    }
    // No filter entry is left for the key.
    assert_eq!(filter.get(DeviceType::Character, 189, 0), None);
    // The live set no longer holds the syspath.
    let (ops_again, detached_again) = hotplug.process_remove(&report);
    assert!(ops_again.is_empty());
    assert!(detached_again.is_none());
}

#[test]
fn remove_of_unknown_syspath_is_ignored() {
    let mut hotplug = HotPlug::new(Vec::new());
    let (ops, detached) = hotplug.process_remove(&bare_device("/sys/devices/elsewhere"));
    assert!(ops.is_empty());
    assert!(detached.is_none());
}

#[test]
fn monitor_snapshot_is_one_add_per_device() {
    let root = "/sys/devices/fake/hub";
    let scanned = vec![
        bare_device("/sys/devices/fake/hub"),
        usb_device("/sys/devices/fake/hub/port1", "/dev/bus/usb/001/002", 189, 0),
        bare_device("/sys/devices/other"),
        // A duplicate sighting of the same syspath is collapsed.
        usb_device("/sys/devices/fake/hub/port1", "/dev/bus/usb/001/002", 189, 0),
    ];
    let mut monitor = DeviceMonitor::new(root.to_string(), &scanned);
    let first = match monitor.pop_enumerated() {
        Some(DeviceEvent::Add(d)) => d,
        _ => panic!("expected the hub first"),
    };
    assert_eq!(first.syspath().as_str(), "/sys/devices/fake/hub");
    let second = match monitor.pop_enumerated() {
        Some(DeviceEvent::Add(d)) => d,
        _ => panic!("expected the child second"),
    };
    assert_eq!(second.syspath().as_str(), "/sys/devices/fake/hub/port1");
    assert!(monitor.pop_enumerated().is_none());
}

#[test]
fn monitor_suppresses_duplicate_and_foreign_adds() {
    let root = "/sys/devices/fake/hub";
    let scanned = vec![bare_device("/sys/devices/fake/hub")];
    let mut monitor = DeviceMonitor::new(root.to_string(), &scanned);
    while monitor.pop_enumerated().is_some() {}

    // A live add for a snapshot syspath is a duplicate.
    assert!(monitor.process_add(bare_device("/sys/devices/fake/hub")).is_none());
    // A device outside the sub-tree is filtered; a sibling prefix does not count.
    assert!(monitor.process_add(bare_device("/sys/devices/other")).is_none());
    assert!(monitor.process_add(bare_device("/sys/devices/fake/hubx")).is_none());
    // A fresh child passes, once.
    let child = usb_device("/sys/devices/fake/hub/port1", "/dev/bus/usb/001/002", 189, 0);
    assert!(matches!(monitor.process_add(child), Some(DeviceEvent::Add(_))));
    let child_again = usb_device("/sys/devices/fake/hub/port1", "/dev/bus/usb/001/002", 189, 0);
    assert!(monitor.process_add(child_again).is_none());
}

#[test]
fn monitor_remove_returns_cached_record() {
    let root = "/sys/devices/fake/hub";
    let scanned = vec![usb_device("/sys/devices/fake/hub/port1", "/dev/bus/usb/001/002", 189, 0)];
    let mut monitor = DeviceMonitor::new(root.to_string(), &scanned);
    while monitor.pop_enumerated().is_some() {}

    // The kernel no longer knows the devnode at removal time; the monitor
    // hands back the cached record, which still does.
    let report = bare_device("/sys/devices/fake/hub/port1");
    let removed = match monitor.process_remove(&report) {
        Some(DeviceEvent::Remove(d)) => d,
        _ => panic!("expected a removal"),
    };
    let node = removed.devnode().as_ref().unwrap();
    assert_eq!(node.path, "/dev/bus/usb/001/002");
    assert_eq!(node.devnum(), (189, 0));
    // A second removal of the same syspath is ignored.
    assert!(monitor.process_remove(&report).is_none());
    // So is a removal of something never seen.
    assert!(monitor.process_remove(&bare_device("/sys/devices/other")).is_none());
}

fn attachment(syspath: &str) -> AttachedDevice {
    AttachedDevice {
        device: bare_device(syspath),
        symlinks: Vec::new(),
    }
}

#[test]
fn supervisor_notifies_once() {
    let mut sup = Supervisor::new(vec!["/sys/devices/fake/hub".to_string()]);
    assert_eq!(sup.step(&Event::Initialized).unwrap(), LoopAction::Notify);
    assert!(sup.step(&Event::Initialized).is_err());
}

#[test]
fn supervisor_stops_container_on_required_removal() {
    let mut sup = Supervisor::new(vec!["/sys/devices/fake/hub".to_string()]);
    assert_eq!(
        sup.step(&Event::Attach(attachment("/sys/devices/fake/hub/port1"))).unwrap(),
        LoopAction::Continue
    );
    assert_eq!(
        sup.step(&Event::Detach(attachment("/sys/devices/fake/hub/port1"))).unwrap(),
        LoopAction::Continue
    );
    assert_eq!(
        sup.step(&Event::Detach(attachment("/sys/devices/fake/hub"))).unwrap(),
        LoopAction::StopContainer
    );
}

#[test]
fn supervisor_exits_when_container_stops() {
    let mut sup = Supervisor::new(Vec::new());
    assert_eq!(sup.step(&Event::Stopped).unwrap(), LoopAction::Exit);
}

#[test]
fn exit_code_for_root_unplugged() {
    assert_eq!(resolve_exit_code(true, 0, 5), 5);
    assert_eq!(resolve_exit_code(true, 42, 5), 5);
}

#[test]
fn exit_code_passes_container_status_through() {
    assert_eq!(resolve_exit_code(false, 42, 5), 42);
    assert_eq!(resolve_exit_code(false, 0, 5), 0);
    // Truncation keeps the low byte.
    assert_eq!(resolve_exit_code(false, 256 + 7, 5), 7);
}

#[test]
fn exit_code_collision_is_rewritten_to_one() {
    assert_eq!(resolve_exit_code(false, 5, 5), 1);
    assert_eq!(resolve_exit_code(false, 256 + 5, 5), 1);
}

#[test]
fn annotations_parse_into_selectors() {
    let refs = runc::parse_device_annotation("usb:2b3e:c310,syspath:/sys/devices/fake/hub")
        .unwrap();
    assert_eq!(refs.len(), 2);
    assert!(runc::parse_device_annotation("usb:2b3e,bogus").is_err());

    let rules = runc::parse_symlink_annotation("usb:2b3e:c310:1=/dev/a,usb:2b3e:c311:2=/dev/b")
        .unwrap();
    assert_eq!(rules.len(), 2);
    assert!(runc::parse_symlink_annotation("nonsense").is_err());
}

#[test]
fn config_annotation_lookup() {
    let config = runc::Config {
        process: runc::Process { user: runc::User { uid: 1000, gid: 1000 } },
        annotations: vec![
            ("org.lowrisc.hotplug.devices".to_string(), "usb:2b3e".to_string()),
        ],
    };
    assert_eq!(
        config.annotation("org.lowrisc.hotplug.devices").map(|s| s.as_str()),
        Some("usb:2b3e")
    );
    assert!(config.annotation("org.lowrisc.hotplug.device").is_none());
}

#[test]
fn systemd_dropins_and_pin_path() {
    let (allow, policy) = runc::systemd_dropin_paths("docker-abc.scope");
    assert_eq!(allow, "/run/systemd/transient/docker-abc.scope.d/50-DeviceAllow.conf");
    assert_eq!(policy, "/run/systemd/transient/docker-abc.scope.d/50-DevicePolicy.conf");

    assert_eq!(runc::filter_pin_path("docker-abc.scope"), "/sys/fs/bpf/docker-abc-device-filter");
    assert_eq!(runc::filter_pin_path("plain"), "/sys/fs/bpf/plain-device-filter");
    assert_eq!(runc::filter_pin_path("a.scope.scope"), "/sys/fs/bpf/a-device-filter");
}

#[test]
fn populated_field_is_read_from_cgroup_events() {
    assert_eq!(runc::parse_populated("populated 1\nfrozen 0\n"), Some(true));
    assert_eq!(runc::parse_populated("frozen 0\npopulated 0\n"), Some(false));
    assert_eq!(runc::parse_populated("frozen 0\n"), None);
    assert_eq!(runc::parse_populated(""), None);
}

#[test]
fn cgroup_v1_lines() {
    let controller = DeviceAccessControllerV1::new("abc123");
    assert_eq!(controller.deny_path(), "/sys/fs/cgroup/devices/docker/abc123/devices.deny");
    assert_eq!(controller.allow_path(), "/sys/fs/cgroup/devices/docker/abc123/devices.allow");

    let rw = Access::read().union(Access::write());
    let (deny, allow) = controller.set_permission_lines(DeviceType::Character, 189, 0, rw);
    assert_eq!(deny.as_deref(), Some("c 189:0 m"));
    assert_eq!(allow.as_deref(), Some("c 189:0 rw"));

    let (deny, allow) = controller.set_permission_lines(DeviceType::Block, 8, 16, Access::all());
    assert!(deny.is_none());
    assert_eq!(allow.as_deref(), Some("b 8:16 rwm"));

    let (deny, allow) =
        controller.set_permission_lines(DeviceType::Character, 189, 0, Access::empty());
    assert_eq!(deny.as_deref(), Some("c 189:0 rwm"));
    assert!(allow.is_none());
}

#[test]
fn log_level_names_and_priorities() {
    assert_eq!(map_log_level(LogLevel::Error), "error");
    assert_eq!(map_log_level(LogLevel::Warn), "warning");
    assert_eq!(map_log_level(LogLevel::Info), "info");
    assert_eq!(map_log_level(LogLevel::Debug), "debug");
    assert_eq!(map_log_level(LogLevel::Trace), "trace");
    assert_eq!(syslog_priority(LogLevel::Error), 11);
    assert_eq!(syslog_priority(LogLevel::Warn), 12);
    assert_eq!(syslog_priority(LogLevel::Info), 13);
    assert_eq!(syslog_priority(LogLevel::Debug), 14);
    assert_eq!(syslog_priority(LogLevel::Trace), 15);
}

#[test]
fn summary_as_tuple() {
    let summary = HotplugDeviceSummary {
        syspath: "/sys/devices/fake/hub/port1".to_string(),
        major: 189,
        minor: 0,
        devnode: "/dev/bus/usb/001/002".to_string(),
        symlink: Some("/dev/ttyACM_CW310_0".to_string()),
    };
    let (syspath, devnum, devnode, link) = summary.as_tuple();
    assert_eq!(syspath.as_str(), "/sys/devices/fake/hub/port1");
    assert_eq!(devnum, (189, 0));
    assert_eq!(devnode.as_str(), "/dev/bus/usb/001/002");
    assert_eq!(link.map(|l| l.as_str()), Some("/dev/ttyACM_CW310_0"));
}

#[test]
fn replaceable_logger_swaps_backends() {
    let mut holder = ReplaceableLogger::new("first".to_string());
    assert_eq!(holder.get(), "first");
    let old = holder.replace("second".to_string());
    assert_eq!(old, "first");
    assert_eq!(holder.get(), "second");
}

#[test]
fn readd_reverses_the_stale_attachment_first() {
    let rule = Symlink::from_str("usb:2b3e:c310:01=/dev/ttyACM_CW310_0").unwrap();
    let mut hotplug = HotPlug::new(vec![rule]);
    let first = usb_device("/sys/devices/fake/hub/port1", "/dev/bus/usb/001/002", 189, 0);
    let (first_ops, _) = hotplug.process_add(first);
    assert_eq!(first_ops.len(), 3);

    // The device reappears under the same syspath with a new devnode: the
    // old resources are reversed before the new ones are made.
    let second = usb_device("/sys/devices/fake/hub/port1", "/dev/bus/usb/001/003", 189, 1);
    let (ops, attached) = hotplug.process_add(second);
    assert!(attached.is_some());
    assert_eq!(ops.len(), 6);
    match &ops[0] {
        DeviceOp::Permission { major, minor, access, .. } => {
            assert_eq!((*major, *minor), (189, 0));
            assert!(access.is_empty());
        }
        _ => panic!("expected the stale grant revoked first"),
    }
    match &ops[1] {
        DeviceOp::Rm { path } => assert_eq!(path, "/dev/bus/usb/001/002"),
        _ => panic!("expected the stale node removed second"),
    }
    match &ops[2] {
        DeviceOp::Rm { path } => assert_eq!(path, "/dev/ttyACM_CW310_0"),
        _ => panic!("expected the stale symlink removed third"),
    }
    match &ops[3] {
        DeviceOp::Permission { major, minor, access, .. } => {
            assert_eq!((*major, *minor), (189, 1));
            assert_eq!(access.bits(), 7);
        }
        _ => panic!("expected the new grant fourth"),
    }
    match &ops[4] {
        DeviceOp::Mknod { path, .. } => assert_eq!(path, "/dev/bus/usb/001/003"),
        _ => panic!("expected the new node fifth"),
    }
    match &ops[5] {
        DeviceOp::Symlink { link, .. } => assert_eq!(link, "/dev/ttyACM_CW310_0"),
        _ => panic!("expected the new symlink sixth"),
    }
    // Still a single live entry: one removal detaches it, a second is a no-op.
    let report = bare_device("/sys/devices/fake/hub/port1");
    assert!(hotplug.process_remove(&report).1.is_some());
    assert!(hotplug.process_remove(&report).1.is_none());
}
