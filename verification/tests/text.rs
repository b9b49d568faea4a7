use container_hotplug::Device;
use container_hotplug::DeviceKind;
use container_hotplug::DeviceRef;
use container_hotplug::IdMap;
use container_hotplug::LogFormat;
use container_hotplug::Symlink;
use container_hotplug::SymlinkDevice;
use container_hotplug::is_hex4;
use container_hotplug::unescape_devnode;

fn device_with_props(syspath: &str, props: &[(&str, &str)]) -> Device {
    let props: Vec<(String, String)> =
        props.iter().map(|(k, v)| (k.to_string(), v.to_string())).collect();
    Device::from_parts(syspath.to_string(), None, None, None, None, props)
}

#[test]
fn unescape_passes_plain_text_through() {
    assert_eq!(unescape_devnode("abc def").unwrap(), "abc def");
    assert_eq!(unescape_devnode("").unwrap(), "");
}

#[test]
fn unescape_decodes_hex_escapes() {
    assert_eq!(unescape_devnode("a\\x20b").unwrap(), "a b");
    assert_eq!(unescape_devnode("\\x41\\x42").unwrap(), "AB");
    assert_eq!(unescape_devnode("CW310\\x2dA").unwrap(), "CW310-A");
}

#[test]
fn unescape_rejects_malformed_escapes() {
    assert!(unescape_devnode("a\\y20").is_err());
    assert!(unescape_devnode("a\\x2").is_err());
    assert!(unescape_devnode("a\\x2g").is_err());
    assert!(unescape_devnode("trailing\\").is_err());
}

#[test]
fn idmap_identity_translates_to_self() {
    let map = IdMap::parse("0 0 4294967295\n").unwrap();
    assert!(map.is_identity());
    assert_eq!(map.translate(0), Some(0));
    assert_eq!(map.translate(5), Some(5));
    assert_eq!(map.translate(4294967294), Some(4294967294));
}

#[test]
fn idmap_offset_range() {
    let map = IdMap::parse("0 1000 65536\n").unwrap();
    assert!(!map.is_identity());
    assert_eq!(map.translate(0), Some(1000));
    assert_eq!(map.translate(65535), Some(66535));
    assert_eq!(map.translate(65536), None);
}

#[test]
fn idmap_multiple_lines_first_match_wins() {
    let map = IdMap::parse("0 1000 10\n100 2000 10\n").unwrap();
    assert_eq!(map.translate(5), Some(1005));
    assert_eq!(map.translate(105), Some(2005));
    assert_eq!(map.translate(50), None);
}

#[test]
fn idmap_parse_rejects_short_lines() {
    assert!(IdMap::parse("1 2\n").is_err());
    assert!(IdMap::parse("a b c\n").is_err());
    assert!(IdMap::parse("0 0 4294967296\n").is_err());
}

#[test]
fn idmap_accepts_plus_prefixed_numbers() {
    let map = IdMap::parse("+0 +1000 +10\n").unwrap();
    assert_eq!(map.translate(5), Some(1005));
    assert!(IdMap::parse("+ 0 10\n").is_err());
}

#[test]
fn idmap_parse_empty_content() {
    let map = IdMap::parse("").unwrap();
    assert_eq!(map.translate(0), None);
}

#[test]
fn is_hex4_accepts_exactly_four_hex_digits() {
    assert!(is_hex4("2b3e"));
    assert!(is_hex4("2B3E"));
    assert!(is_hex4("0000"));
    assert!(!is_hex4("2b3"));
    assert!(!is_hex4("2b3e5"));
    assert!(!is_hex4("2g3e"));
    assert!(!is_hex4(""));
}

#[test]
fn device_ref_usb_forms() {
    let d = DeviceRef::from_str("usb:2B3E").unwrap();
    assert_eq!(d.parent_level, 0);
    match d.kind {
        DeviceKind::Usb { vid, pid, serial } => {
            assert_eq!(vid, "2b3e");
            assert!(pid.is_none());
            assert!(serial.is_none());
        }
        _ => panic!("expected usb selector"),
    }

    let d = DeviceRef::from_str("usb:2b3e:C310:Serial9").unwrap();
    match d.kind {
        DeviceKind::Usb { vid, pid, serial } => {
            assert_eq!(vid, "2b3e");
            assert_eq!(pid.as_deref(), Some("c310"));
            assert_eq!(serial.as_deref(), Some("Serial9"));
        }
        _ => panic!("expected usb selector"),
    }
}

#[test]
fn device_ref_parent_of_prefixes() {
    let d = DeviceRef::from_str("parent-of:parent-of:usb:2b3e").unwrap();
    assert_eq!(d.parent_level, 2);
}

#[test]
fn device_ref_paths() {
    let d = DeviceRef::from_str("syspath:/sys/devices/fake/hub").unwrap();
    match d.kind {
        DeviceKind::Syspath(p) => assert_eq!(p, "/sys/devices/fake/hub"),
        _ => panic!("expected syspath selector"),
    }
    let d = DeviceRef::from_str("devnode:/dev/ttyACM0").unwrap();
    match d.kind {
        DeviceKind::Devnode(p) => assert_eq!(p, "/dev/ttyACM0"),
        _ => panic!("expected devnode selector"),
    }
}

#[test]
fn device_ref_rejects_malformed_selectors() {
    assert!(DeviceRef::from_str("usb").is_err());
    assert!(DeviceRef::from_str("usb:12").is_err());
    assert!(DeviceRef::from_str("usb:2b3e:c310:ser:extra").is_err());
    assert!(DeviceRef::from_str("usb:2b3e:c310:bad serial").is_err());
    assert!(DeviceRef::from_str("syspath:/tmp/x").is_err());
    assert!(DeviceRef::from_str("syspath:relative").is_err());
    assert!(DeviceRef::from_str("devnode:/dev/").is_err());
    assert!(DeviceRef::from_str("devnode:/sys/x").is_err());
    assert!(DeviceRef::from_str("floppy:/dev/fd0").is_err());
    assert!(DeviceRef::from_str("").is_err());
}

#[test]
fn symlink_rule_parses_and_normalises() {
    let rule = Symlink::from_str("usb:2B3E:C310:1=/dev/ttyACM_CW310_0").unwrap();
    assert_eq!(rule.path, "/dev/ttyACM_CW310_0");
    match &rule.device {
        SymlinkDevice::Usb { vid, pid, if_num } => {
            assert_eq!(vid, "2b3e");
            assert_eq!(pid, "c310");
            assert_eq!(if_num, "01");
        }
    }
    // An interface number already two digits wide stays as it is.
    let rule = Symlink::from_str("usb:2b3e:c310:12=/dev/x").unwrap();
    match &rule.device {
        SymlinkDevice::Usb { if_num, .. } => assert_eq!(if_num, "12"),
    }
}

#[test]
fn symlink_rule_rejects_malformed_rules() {
    assert!(Symlink::from_str("usb:2b3e:c310:01").is_err());
    assert!(Symlink::from_str("usb:2b3e:c310:01=relative").is_err());
    assert!(Symlink::from_str("usb:2b3e:c310:01=/dev/x/").is_err());
    assert!(Symlink::from_str("usb:2b3e:c310=/dev/x").is_err());
    assert!(Symlink::from_str("usb:2b3e:c310:ab=/dev/x").is_err());
    assert!(Symlink::from_str("pci:2b3e:c310:01=/dev/x").is_err());
    assert!(Symlink::from_str("usb:2b3e:c310:01=/dev/a=/dev/b").is_err());
}

#[test]
fn symlink_rule_matches_device_properties() {
    let rule = Symlink::from_str("usb:2b3e:c310:01=/dev/ttyACM_CW310_0").unwrap();
    let matching = device_with_props(
        "/sys/devices/fake/hub/port1",
        &[
            ("ID_VENDOR_ID", "2b3e"),
            ("ID_MODEL_ID", "c310"),
            ("ID_USB_INTERFACE_NUM", "01"),
        ],
    );
    assert_eq!(rule.matches(&matching).as_deref(), Some("/dev/ttyACM_CW310_0"));

    let wrong_model = device_with_props(
        "/sys/devices/fake/hub/port1",
        &[
            ("ID_VENDOR_ID", "2b3e"),
            ("ID_MODEL_ID", "beef"),
            ("ID_USB_INTERFACE_NUM", "01"),
        ],
    );
    assert!(rule.matches(&wrong_model).is_none());

    let missing_interface = device_with_props(
        "/sys/devices/fake/hub/port1",
        &[("ID_VENDOR_ID", "2b3e"), ("ID_MODEL_ID", "c310")],
    );
    assert!(rule.matches(&missing_interface).is_none());
}

#[test]
fn logfmt_parses_flags() {
    let f = LogFormat::from_str("").unwrap();
    assert_eq!(f, LogFormat::default());
    let f = LogFormat::from_str("+p").unwrap();
    assert!(f.path && f.timestamp && f.module && f.level);
    let f = LogFormat::from_str("-tml").unwrap();
    assert!(!f.timestamp && !f.module && !f.level && !f.path);
    let f = LogFormat::from_str("-t+p").unwrap();
    assert!(!f.timestamp && f.path);
    assert!(LogFormat::from_str("x").is_err());
    assert!(LogFormat::from_str("+tx").is_err());
}

#[test]
fn logfmt_flags_string_round_trip() {
    assert_eq!(LogFormat::default().flags_string(), "+tml-p");
    let all = LogFormat { timestamp: true, path: true, module: true, level: true };
    assert_eq!(all.flags_string(), "+tpml");
    let none = LogFormat { timestamp: false, path: false, module: false, level: false };
    assert_eq!(none.flags_string(), "-tpml");
    let parsed = LogFormat::from_str(&LogFormat::default().flags_string()).unwrap();
    assert_eq!(parsed, LogFormat::default());
}

#[test]
fn display_name_prefers_database_names() {
    let dev = device_with_props(
        "/sys/devices/fake/hub/port1",
        &[
            ("ID_VENDOR_FROM_DATABASE", "lowRISC"),
            ("ID_MODEL_FROM_DATABASE", "CW310"),
            ("ID_VENDOR_ENC", "ignored"),
        ],
    );
    assert_eq!(dev.display_name().as_deref(), Some("lowRISC CW310"));
}

#[test]
fn display_name_unescapes_and_trims_encoded_names() {
    let dev = device_with_props(
        "/sys/devices/fake/hub/port1",
        &[("ID_VENDOR_ENC", "low\\x20RISC\\x20"), ("ID_MODEL_ENC", "\\x20CW310")],
    );
    assert_eq!(dev.display_name().as_deref(), Some("low RISC CW310"));
}

#[test]
fn display_name_absent_without_vendor_or_model() {
    let dev = device_with_props("/sys/devices/fake/hub/port1", &[("ID_VENDOR_ENC", "v")]);
    assert!(dev.display_name().is_none());
}
