use container_hotplug::Access;
use container_hotplug::DeviceType;
use container_hotplug::FilterError;
use container_hotplug::FilterMap;

#[test]
fn default_character_devices_pass_with_empty_map() {
    let map = FilterMap::new();
    let defaults = [(1, 3), (1, 5), (1, 7), (1, 8), (1, 9), (5, 0), (5, 1), (5, 2)];
    for (major, minor) in defaults {
        assert!(map.check_device(DeviceType::Character, major, minor, Access::read()));
        assert!(map.check_device(DeviceType::Character, major, minor, Access::write()));
    }
}

#[test]
fn default_devices_pass_regardless_of_map_contents() {
    let mut map = FilterMap::new();
    // A rule for an unrelated device must not affect the defaults.
    map.set_permission(DeviceType::Character, 189, 0, Access::read()).unwrap();
    // Even a rule *for* a default device cannot make it denied.
    map.set_permission(DeviceType::Character, 1, 3, Access::mknod()).unwrap();
    let defaults = [(1, 3), (1, 5), (1, 7), (1, 8), (1, 9), (5, 0), (5, 1), (5, 2)];
    for (major, minor) in defaults {
        assert!(map.check_device(DeviceType::Character, major, minor, Access::read()));
        assert!(map.check_device(DeviceType::Character, major, minor, Access::write()));
    }
}

#[test]
fn pseudo_pty_major_passes_for_every_minor() {
    let map = FilterMap::new();
    for minor in [0, 1, 7, 63, 255, 1024, 4_000_000_000u32] {
        assert!(map.check_device(DeviceType::Character, 136, minor, Access::read()));
        assert!(map.check_device(DeviceType::Character, 136, minor, Access::write()));
    }
    // Major 136 is special only for character devices.
    assert!(!map.check_device(DeviceType::Block, 136, 0, Access::read()));
}

#[test]
fn mask_construction() {
    assert_eq!(Access::empty().bits(), 0);
    assert!(Access::empty().is_empty());
    assert_eq!(Access::all().bits(), 7);
    assert_eq!(Access::read().union(Access::write()).bits(), 6);
    // Undefined bits are dropped.
    assert_eq!(Access::from_bits_truncate(0xff).bits(), 7);
    assert!(Access::all().contains(Access::read()));
    assert!(!Access::read().contains(Access::write()));
}

#[test]
fn mknod_is_always_admitted() {
    let map = FilterMap::new();
    assert!(map.check_device(DeviceType::Character, 189, 0, Access::mknod()));
    assert!(map.check_device(DeviceType::Block, 8, 1, Access::mknod()));
}

#[test]
fn mask_semantics_exact_key() {
    let mut map = FilterMap::new();
    map.set_permission(DeviceType::Character, 189, 0, Access::read()).unwrap();
    assert!(map.check_device(DeviceType::Character, 189, 0, Access::read()));
    assert!(!map.check_device(DeviceType::Character, 189, 0, Access::write()));
    // Combined request: admitted only if every bit is granted.
    let rw = Access::read().union(Access::write());
    assert!(!map.check_device(DeviceType::Character, 189, 0, rw));
    map.set_permission(DeviceType::Character, 189, 0, rw).unwrap();
    assert!(map.check_device(DeviceType::Character, 189, 0, rw));
}

#[test]
fn wildcard_consulted_only_on_miss() {
    let mut map = FilterMap::new();
    map.set_permission(DeviceType::Character, 0, 0, Access::read().union(Access::write()))
        .unwrap();
    // Missing exact key: the wildcard decides.
    assert!(map.check_device(DeviceType::Character, 200, 7, Access::read()));
    assert!(map.check_device(DeviceType::Character, 200, 7, Access::write()));
    // Present exact key: the wildcard is ignored, even if more generous.
    map.set_permission(DeviceType::Character, 200, 7, Access::read()).unwrap();
    assert!(!map.check_device(DeviceType::Character, 200, 7, Access::write()));
    // The wildcard is per-type.
    assert!(!map.check_device(DeviceType::Block, 200, 7, Access::read()));
}

#[test]
fn both_missing_denies() {
    let map = FilterMap::new();
    assert!(!map.check_device(DeviceType::Character, 189, 0, Access::read()));
    assert!(!map.check_device(DeviceType::Block, 8, 0, Access::write()));
}

#[test]
fn empty_mask_removes_entry() {
    let mut map = FilterMap::new();
    map.set_permission(DeviceType::Character, 189, 0, Access::all()).unwrap();
    assert_eq!(map.get(DeviceType::Character, 189, 0), Some(7));
    map.set_permission(DeviceType::Character, 189, 0, Access::empty()).unwrap();
    assert_eq!(map.get(DeviceType::Character, 189, 0), None);
    assert!(!map.check_device(DeviceType::Character, 189, 0, Access::read()));
    // Clearing an absent key is fine.
    map.set_permission(DeviceType::Character, 189, 0, Access::empty()).unwrap();
    assert_eq!(map.len(), 0);
}

#[test]
fn overwrite_keeps_one_entry() {
    let mut map = FilterMap::new();
    map.set_permission(DeviceType::Character, 189, 0, Access::read()).unwrap();
    map.set_permission(DeviceType::Character, 189, 0, Access::all()).unwrap();
    assert_eq!(map.len(), 1);
    assert_eq!(map.get(DeviceType::Character, 189, 0), Some(7));
}

#[test]
fn capacity_is_enforced() {
    let mut map = FilterMap::new();
    for minor in 0..256u32 {
        map.set_permission(DeviceType::Character, 400, minor, Access::read()).unwrap();
    }
    assert_eq!(map.len(), 256);
    // A fresh key no longer fits; an existing key can still be updated.
    assert_eq!(
        map.set_permission(DeviceType::Character, 400, 256, Access::read()),
        Err(FilterError::Full)
    );
    map.set_permission(DeviceType::Character, 400, 0, Access::all()).unwrap();
    // Clearing a key frees a slot.
    map.set_permission(DeviceType::Character, 400, 1, Access::empty()).unwrap();
    map.set_permission(DeviceType::Character, 400, 256, Access::read()).unwrap();
}

#[test]
fn plugged_device_scenario() {
    // A hub child at (189, 0) is granted everything; the filter then admits
    // reads and writes for it and nothing for its neighbour.
    let mut map = FilterMap::new();
    map.set_permission(DeviceType::Character, 189, 0, Access::all()).unwrap();
    assert_eq!(map.get(DeviceType::Character, 189, 0), Some(7));
    assert!(map.check_device(DeviceType::Character, 189, 0, Access::read()));
    assert!(map.check_device(DeviceType::Character, 189, 0, Access::write()));
    assert!(!map.check_device(DeviceType::Character, 189, 1, Access::read()));
}
