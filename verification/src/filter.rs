//! Model of the cgroup device-access filter: a bounded map from
//! `(type, major, minor)` to an access mask, together with the decision
//! function the kernel-side filter program applies to each device access.
//!
//! The decision semantics: `MKNOD` is always allowed, a fixed list of default
//! character devices is always allowed, and any other access consults the map
//! (falling back to the per-type wildcard `(type, 0, 0)`), admitting the
//! access exactly when every requested bit is present in the stored mask.

use vstd::prelude::*;
use vstd::map::*;

use crate::access::Access;
use crate::access::DeviceType;
use crate::access::ACCESS_MKNOD;
use crate::access::ACCESS_READ;
use crate::access::ACCESS_WRITE;
use crate::access::valid_access_bits;

verus! {

/// Capacity of the filter map, matching the kernel map's maximum entry count.
pub const FILTER_CAPACITY: usize = 256;

/// One stored rule: a device key and the non-empty mask granted to it.
#[derive(Debug, Clone, Copy, PartialEq, Eq, Structural)]
pub struct FilterEntry {
    pub ty: DeviceType,
    pub major: u32,
    pub minor: u32,
    pub mask: u32,
}

impl FilterEntry {
    /// The map key of this entry, with the device type in its BPF encoding.
    pub open spec fn key(self) -> (u32, u32, u32) {
        (self.ty.as_bpf(), self.major, self.minor)
    }
}

/// The map a sequence of entries denotes, later entries taking precedence.
pub open spec fn entries_map(s: Seq<FilterEntry>) -> Map<(u32, u32, u32), u32>
    decreases s.len(),
{
    if s.len() == 0 {
        Map::empty()
    } else {
        entries_map(s.drop_last()).insert(s.last().key(), s.last().mask)
    }
}

/// Errors a filter-map update can report.
#[derive(Debug, Clone, Copy, PartialEq, Eq, Structural)]
pub enum FilterError {
    /// The map already holds `FILTER_CAPACITY` keys and the update needed a
    /// fresh slot.
    Full,
}

/// The `(type, major, minor) -> access-mask` store shared with the kernel
/// filter program. Wildcard entries `(type, 0, 0)` act as per-type defaults;
/// an entry is removed rather than stored with an empty mask.
pub struct FilterMap {
    entries: Vec<FilterEntry>,
}

impl FilterMap {
    /// The stored rules, as a mathematical map.
    pub closed spec fn view(self) -> Map<(u32, u32, u32), u32> {
        entries_map(self.entries@)
    }

    /// Internal invariant: distinct keys, non-empty well-formed masks, and at
    /// most `FILTER_CAPACITY` entries.
    pub closed spec fn wf(self) -> bool {
        &&& forall|i: int, j: int|
            0 <= i < j < self.entries@.len() ==> self.entries@[i].key() != self.entries@[j].key()
        &&& forall|i: int|
            0 <= i < self.entries@.len() ==> (#[trigger] self.entries@[i].mask) != 0
                && valid_access_bits(self.entries@[i].mask)
        &&& self.entries@.len() <= FILTER_CAPACITY
    }

    /// How many keys the map holds.
    pub closed spec fn spec_len(self) -> nat {
        self.entries@.len()
    }

    proof fn lemma_entries_map_characterisation(s: Seq<FilterEntry>)
        requires
            forall|i: int, j: int| 0 <= i < j < s.len() ==> s[i].key() != s[j].key(),
        ensures
            forall|k: (u32, u32, u32)|
                #[trigger] entries_map(s).contains_key(k) <==> exists|i: int|
                    0 <= i < s.len() && (#[trigger] s[i].key()) == k,
            forall|i: int|
                0 <= i < s.len() ==> entries_map(s)[#[trigger] s[i].key()] == s[i].mask,
        decreases s.len(),
    {
        if s.len() > 0 {
            let prefix = s.drop_last();
            Self::lemma_entries_map_characterisation(prefix);
            assert forall|i: int| 0 <= i < s.len() implies entries_map(s)[#[trigger] s[i].key()]
                == s[i].mask by {
                if i < s.len() - 1 {
                    assert(s[i] == prefix[i]);
                    assert(s[i].key() != s.last().key());
                }
            }
            assert forall|k: (u32, u32, u32)| #[trigger]
                entries_map(s).contains_key(k) implies exists|i: int|
                0 <= i < s.len() && (#[trigger] s[i].key()) == k by {
                assert(entries_map(s) == entries_map(prefix).insert(s.last().key(), s.last().mask));
                if k == s.last().key() {
                    let i = s.len() - 1;
                    assert(0 <= i < s.len() && s[i].key() == k);
                } else {
                    assert(entries_map(prefix).contains_key(k));
                    let i = choose|i: int| 0 <= i < prefix.len() && (#[trigger] prefix[i].key()) == k;
                    assert(prefix[i] == s[i]);
                    assert(0 <= i < s.len() && s[i].key() == k);
                }
            }
            assert forall|k: (u32, u32, u32)| (exists|i: int|
                0 <= i < s.len() && (#[trigger] s[i].key()) == k) implies entries_map(
                s,
            ).contains_key(k) by {
                let i = choose|i: int| 0 <= i < s.len() && (#[trigger] s[i].key()) == k;
                if i < s.len() - 1 {
                    assert(prefix[i].key() == k);
                }
            }
        }
    }

    /// An empty filter map.
    pub fn new() -> (r: FilterMap)
        ensures
            r@ == Map::<(u32, u32, u32), u32>::empty(),
            r.wf(),
            r.spec_len() == 0,
    {
        FilterMap { entries: Vec::new() }
    }

    /// Index of the entry with the given key, if any.
    fn find(&self, ty: DeviceType, major: u32, minor: u32) -> (r: Option<usize>)
        requires
            self.wf(),
        ensures
            match r {
                Some(i) => i < self.entries@.len() && self.entries@[i as int].key() == (
                ty.as_bpf(), major, minor),
                None => forall|i: int|
                    0 <= i < self.entries@.len() ==> (#[trigger] self.entries@[i].key()) != (
                    ty.as_bpf(), major, minor),
            },
    {
        let n = self.entries.len();
        let ty_num = ty.bpf_const();
        for i in 0..n
            invariant
                n == self.entries@.len(),
                ty_num == ty.as_bpf(),
                forall|j: int|
                    0 <= j < i ==> (#[trigger] self.entries@[j].key()) != (ty.as_bpf(), major, minor),
        {
            let e = &self.entries[i];
            if e.ty.bpf_const() == ty_num && e.major == major && e.minor == minor {
                return Some(i);
            }
        }
        None
    }

    /// Set (or clear, for an empty mask) the permission stored for one device
    /// key. Mirrors the kernel map update: an empty mask deletes the key, any
    /// other mask overwrites or inserts, and inserting into a full map fails.
    pub fn set_permission(&mut self, ty: DeviceType, major: u32, minor: u32, access: Access) -> (r:
        Result<(), FilterError>)
        requires
            old(self).wf(),
            access.wf(),
        ensures
            final(self).wf(),
            match r {
                Ok(()) => {
                    &&& access.spec_bits() == 0 ==> final(self)@ == old(self)@.remove(
                        (ty.as_bpf(), major, minor),
                    )
                    &&& access.spec_bits() != 0 ==> final(self)@ == old(self)@.insert(
                        (ty.as_bpf(), major, minor),
                        access.spec_bits(),
                    )
                },
                Err(FilterError::Full) => {
                    &&& final(self)@ == old(self)@
                    &&& access.spec_bits() != 0
                    &&& !old(self)@.contains_key((ty.as_bpf(), major, minor))
                    &&& old(self).spec_len() == FILTER_CAPACITY
                },
            },
            r is Ok <==> (access.spec_bits() == 0 || old(self)@.contains_key(
                (ty.as_bpf(), major, minor),
            ) || old(self).spec_len() < FILTER_CAPACITY),
    {
        proof {
            Self::lemma_entries_map_characterisation(self.entries@);
        }
        let key_index = self.find(ty, major, minor);
        let ghost old_entries = self.entries@;
        let ghost key = (ty.as_bpf(), major, minor);
        if access.is_empty() {
            match key_index {
                Some(i) => {
                    self.entries.swap_remove(i);
                    proof {
                        let new = self.entries@;
                        assert forall|a: int, b: int| 0 <= a < b < new.len() implies new[a].key()
                            != new[b].key() by {
                            Self::lemma_swap_remove_keys(old_entries, i as int, a);
                            Self::lemma_swap_remove_keys(old_entries, i as int, b);
                        }
                        assert forall|a: int| 0 <= a < new.len() implies (#[trigger] new[a].mask)
                            != 0 && valid_access_bits(new[a].mask) by {
                            Self::lemma_swap_remove_keys(old_entries, i as int, a);
                        }
                        Self::lemma_entries_map_characterisation(new);
                        assert forall|k: (u32, u32, u32)| #[trigger]
                            entries_map(new).contains_key(k) implies entries_map(
                            old_entries,
                        ).remove(key).contains_key(k) && entries_map(new)[k] == entries_map(
                            old_entries,
                        ).remove(key)[k] by {
                            let a = choose|a: int|
                                0 <= a < new.len() && (#[trigger] new[a].key()) == k;
                            Self::lemma_swap_remove_keys(old_entries, i as int, a);
                            let b = if a == i { old_entries.len() - 1 } else { a };
                            assert(old_entries[b].key() == k && old_entries[b].mask == new[a].mask);
                            assert(k != key);
                        }
                        assert forall|k: (u32, u32, u32)| #[trigger]
                            entries_map(old_entries).remove(key).contains_key(k) implies entries_map(
                            new,
                        ).contains_key(k) by {
                            let b = choose|b: int|
                                0 <= b < old_entries.len() && (#[trigger] old_entries[b].key()) == k;
                            let a = if b == old_entries.len() - 1 { i as int } else { b };
                            assert(b != i);
                            Self::lemma_swap_remove_keys(old_entries, i as int, a);
                            assert(new[a].key() == k);
                        }
                        assert_maps_equal!(entries_map(new), entries_map(old_entries).remove(key));
                    }
                },
                None => {
                    proof {
                        assert_maps_equal!(entries_map(old_entries).remove(key),
                            entries_map(old_entries));
                    }
                },
            }
            Ok(())
        } else {
            match key_index {
                Some(i) => {
                    let entry = FilterEntry { ty, major, minor, mask: access.bits() };
                    self.entries[i] = entry;
                    proof {
                        let new = self.entries@;
                        assert forall|a: int, b: int| 0 <= a < b < new.len() implies new[a].key()
                            != new[b].key() by {
                            assert(old_entries[a].key() != old_entries[b].key());
                        }
                        Self::lemma_entries_map_characterisation(new);
                        assert forall|k: (u32, u32, u32)| #[trigger]
                            entries_map(new).contains_key(k) implies entries_map(
                            old_entries,
                        ).insert(key, access.spec_bits()).contains_key(k) && entries_map(new)[k]
                            == entries_map(old_entries).insert(key, access.spec_bits())[k] by {
                            let a = choose|a: int|
                                0 <= a < new.len() && (#[trigger] new[a].key()) == k;
                            assert(old_entries[a].key() == if a == i { key } else { k });
                            if a != i {
                                assert(old_entries[a].key() != old_entries[i as int].key());
                            }
                        }
                        assert forall|k: (u32, u32, u32)| #[trigger]
                            entries_map(old_entries).insert(key, access.spec_bits()).contains_key(
                            k,
                        ) implies entries_map(new).contains_key(k) by {
                            if k == key {
                                assert(new[i as int].key() == k);
                            } else {
                                let b = choose|b: int|
                                    0 <= b < old_entries.len() && (#[trigger] old_entries[b].key())
                                        == k;
                                assert(new[b].key() == k);
                            }
                        }
                        assert_maps_equal!(entries_map(new),
                            entries_map(old_entries).insert(key, access.spec_bits()));
                    }
                    Ok(())
                },
                None => {
                    if self.entries.len() >= FILTER_CAPACITY {
                        return Err(FilterError::Full);
                    }
                    let entry = FilterEntry { ty, major, minor, mask: access.bits() };
                    self.entries.push(entry);
                    proof {
                        let new = self.entries@;
                        assert(new.drop_last() == old_entries);
                        assert(new.last().key() == key);
                    }
                    Ok(())
                },
            }
        }
    }

    proof fn lemma_swap_remove_keys(s: Seq<FilterEntry>, i: int, a: int)
        requires
            0 <= i < s.len(),
            0 <= a < s.len() - 1,
        ensures
            s.update(i, s.last()).drop_last()[a] == if a == i {
                s.last()
            } else {
                s[a]
            },
    {
    }

    /// How many device keys currently hold a rule.
    pub fn len(&self) -> (r: usize)
        ensures
            r == self.spec_len(),
    {
        self.entries.len()
    }

    /// The mask stored for exactly this key, if any (no wildcard fallback).
    pub fn get(&self, ty: DeviceType, major: u32, minor: u32) -> (r: Option<u32>)
        requires
            self.wf(),
        ensures
            match r {
                Some(mask) => self@.contains_key((ty.as_bpf(), major, minor)) && self@[(
                ty.as_bpf(), major, minor)] == mask,
                None => !self@.contains_key((ty.as_bpf(), major, minor)),
            },
    {
        proof {
            Self::lemma_entries_map_characterisation(self.entries@);
        }
        match self.find(ty, major, minor) {
            Some(i) => Some(self.entries[i].mask),
            None => None,
        }
    }
}

/// Whether `(ty, major, minor)` (type in BPF encoding) is one of the default
/// devices every container may use: the standard character devices null,
/// zero, full, random, urandom, tty, console and ptmx, and every pseudo-PTY
/// slave (character major 136).
pub open spec fn is_default_device(ty: u32, major: u32, minor: u32) -> bool {
    ty == 2 && ((major == 1 && (minor == 3 || minor == 5 || minor == 7 || minor == 8 || minor == 9))
        || (major == 5 && (minor == 0 || minor == 1 || minor == 2)) || major == 136)
}

/// The mask the filter consults for a key: the exact entry if present, the
/// per-type wildcard `(ty, 0, 0)` on a miss, nothing if both are absent.
pub open spec fn filter_lookup(m: Map<(u32, u32, u32), u32>, ty: u32, major: u32, minor: u32) -> Option<u32> {
    if m.contains_key((ty, major, minor)) {
        Some(m[(ty, major, minor)])
    } else if m.contains_key((ty, 0, 0)) {
        Some(m[(ty, 0, 0)])
    } else {
        None
    }
}

/// The kernel-side decision: whether an access with bits `access` to device
/// `(ty, major, minor)` (type in BPF encoding) is admitted under map `m`.
pub open spec fn device_allowed(m: Map<(u32, u32, u32), u32>, ty: u32, major: u32, minor: u32, access: u32) -> bool {
    if (ty == 1 || ty == 2) && access == ACCESS_MKNOD {
        true
    } else if is_default_device(ty, major, minor) {
        true
    } else {
        match filter_lookup(m, ty, major, minor) {
            Some(mask) => mask & access == access,
            None => false,
        }
    }
}

impl FilterMap {
    /// The decision the attached filter program makes for one access check,
    /// computed over this map.
    pub fn check_device(&self, ty: DeviceType, major: u32, minor: u32, access: Access) -> (r: bool)
        requires
            self.wf(),
        ensures
            r == device_allowed(self@, ty.as_bpf(), major, minor, access.spec_bits()),
    {
        let ty_num = ty.bpf_const();
        let access_bits = access.bits();

        // Creation is never restricted; restriction applies at open time.
        if access_bits == ACCESS_MKNOD {
            return true;
        }

        // Default devices every container is given.
        if ty_num == 2 {
            if major == 1 && (minor == 3 || minor == 5 || minor == 7 || minor == 8 || minor == 9) {
                return true;
            }
            if major == 5 && (minor == 0 || minor == 1 || minor == 2) {
                return true;
            }
            if major == 136 {
                return true;
            }
        }

        // Exact key first, then the per-type wildcard.
        let mask = match self.get(ty, major, minor) {
            Some(mask) => Some(mask),
            None => {
                let wildcard = match ty {
                    DeviceType::Block => self.get(DeviceType::Block, 0, 0),
                    DeviceType::Character => self.get(DeviceType::Character, 0, 0),
                };
                wildcard
            },
        };
        match mask {
            Some(mask) => mask & access_bits == access_bits,
            None => false,
        }
    }
}

/// Law: the default devices pass. For every map contents `m`, every access,
/// read or write included, to one of the fixed default character devices —
/// `(1,3)`, `(1,5)`, `(1,7)`, `(1,8)`, `(1,9)`, `(5,0)`, `(5,1)`, `(5,2)` and
/// any minor of major 136 — is admitted.
pub proof fn lemma_default_devices_pass(m: Map<(u32, u32, u32), u32>, major: u32, minor: u32, access: u32)
    requires
        (major == 1 && (minor == 3 || minor == 5 || minor == 7 || minor == 8 || minor == 9)) || (
        major == 5 && (minor == 0 || minor == 1 || minor == 2)) || major == 136,
    ensures
        device_allowed(m, 2, major, minor, access),
        device_allowed(m, 2, major, minor, ACCESS_READ),
        device_allowed(m, 2, major, minor, ACCESS_WRITE),
{
}

/// Law: mask semantics. For a non-default device whose exact key is stored
/// with mask `mask`, an access is admitted iff every requested bit is in
/// `mask`; the wildcard is consulted only when the exact key is absent; and
/// when both are absent every access but `MKNOD` is denied.
pub proof fn lemma_mask_semantics(m: Map<(u32, u32, u32), u32>, ty: u32, major: u32, minor: u32, access: u32)
    requires
        ty == 1 || ty == 2,
        !is_default_device(ty, major, minor),
        access != ACCESS_MKNOD,
    ensures
        m.contains_key((ty, major, minor)) ==> (device_allowed(m, ty, major, minor, access) <==> m[(
        ty, major, minor)] & access == access),
        (!m.contains_key((ty, major, minor)) && m.contains_key((ty, 0, 0))) ==> (device_allowed(
            m,
            ty,
            major,
            minor,
            access,
        ) <==> m[(ty, 0, 0)] & access == access),
        (!m.contains_key((ty, major, minor)) && !m.contains_key((ty, 0, 0))) ==> !device_allowed(
            m,
            ty,
            major,
            minor,
            access,
        ),
{
}

/// Law: adding a rule for a key and then clearing the same key leaves the
/// map without any entry for that key.
pub proof fn lemma_filter_round_trip(m: Map<(u32, u32, u32), u32>, key: (u32, u32, u32), mask: u32)
    ensures
        !m.insert(key, mask).remove(key).contains_key(key),
{
}

} // verus!
