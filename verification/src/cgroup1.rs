//! The legacy cgroup-v1 device-controller back-end: permissions are plain
//! text lines written to `devices.deny` and `devices.allow` under the
//! cgroup directory. This module computes the directory path and the exact
//! lines; writing them is the caller's part.

use vstd::prelude::*;
use vstd::string::StringExecFns;

use crate::access::Access;
use crate::access::DeviceType;
use crate::uevent::dec_chars;
use crate::uevent::u64_dec_string;

verus! {

/// The `c`/`b` letter of a device type in the v1 text format.
pub open spec fn v1_type_char(ty: DeviceType) -> char {
    match ty {
        DeviceType::Character => 'c',
        DeviceType::Block => 'b',
    }
}

/// The permission letters among `r`, `w`, `m` that `bits` grants, in that
/// order.
pub open spec fn granted_chars(bits: u32) -> Seq<char> {
    (if bits & 2 == 2 {
        seq!['r']
    } else {
        Seq::<char>::empty()
    }) + (if bits & 4 == 4 {
        seq!['w']
    } else {
        Seq::<char>::empty()
    }) + (if bits & 1 == 1 {
        seq!['m']
    } else {
        Seq::<char>::empty()
    })
}

/// The permission letters that `bits` does not grant, in the same order.
pub open spec fn denied_chars(bits: u32) -> Seq<char> {
    (if bits & 2 == 2 {
        Seq::<char>::empty()
    } else {
        seq!['r']
    }) + (if bits & 4 == 4 {
        Seq::<char>::empty()
    } else {
        seq!['w']
    }) + (if bits & 1 == 1 {
        Seq::<char>::empty()
    } else {
        seq!['m']
    })
}

/// One `<ty> <major>:<minor> <chars>` line of the v1 text format.
pub open spec fn v1_line(ty: DeviceType, major: u32, minor: u32, chars: Seq<char>) -> Seq<char> {
    seq![v1_type_char(ty), ' '] + dec_chars(major as nat) + seq![':'] + dec_chars(minor as nat)
        + seq![' '] + chars
}

/// The v1 device-controller back-end for one cgroup directory.
#[derive(Debug)]
pub struct DeviceAccessControllerV1 {
    cgroup: String,
}

impl DeviceAccessControllerV1 {
    /// The cgroup directory written to.
    pub closed spec fn spec_cgroup(self) -> Seq<char> {
        self.cgroup@
    }

    /// The back-end for the container with the given id. Whether the
    /// directory exists is for the caller to check before writing.
    pub fn new(id: &str) -> (r: DeviceAccessControllerV1)
        ensures
            r.spec_cgroup() == "/sys/fs/cgroup/devices/docker/"@ + id@,
    {
        let mut cgroup = String::from_str("/sys/fs/cgroup/devices/docker/");
        cgroup.append(id);
        DeviceAccessControllerV1 { cgroup }
    }

    /// The path of the `devices.deny` file.
    pub fn deny_path(&self) -> (r: String)
        ensures
            r@ == self.spec_cgroup() + "/devices.deny"@,
    {
        let mut r = self.cgroup.clone();
        r.append("/devices.deny");
        r
    }

    /// The path of the `devices.allow` file.
    pub fn allow_path(&self) -> (r: String)
        ensures
            r@ == self.spec_cgroup() + "/devices.allow"@,
    {
        let mut r = self.cgroup.clone();
        r.append("/devices.allow");
        r
    }

    /// The lines a permission change writes: first the complement of the
    /// granted accesses to `devices.deny`, then the granted ones to
    /// `devices.allow`; a line is omitted when its letter set is empty.
    pub fn set_permission_lines(&self, ty: DeviceType, major: u32, minor: u32, access: Access) -> (r: (
        Option<String>,
        Option<String>,
    ))
        ensures
            (match r.0 {
                Some(line) => denied_chars(access.spec_bits()).len() > 0 && line@ == v1_line(
                    ty,
                    major,
                    minor,
                    denied_chars(access.spec_bits()),
                ),
                None => denied_chars(access.spec_bits()).len() == 0,
            }),
            (match r.1 {
                Some(line) => granted_chars(access.spec_bits()).len() > 0 && line@ == v1_line(
                    ty,
                    major,
                    minor,
                    granted_chars(access.spec_bits()),
                ),
                None => granted_chars(access.spec_bits()).len() == 0,
            }),
    {
        let bits = access.bits();
        let mut denied: Vec<char> = Vec::new();
        let mut allowed: Vec<char> = Vec::new();
        if bits & 2 == 2 {
            allowed.push('r');
        } else {
            denied.push('r');
        }
        if bits & 4 == 4 {
            allowed.push('w');
        } else {
            denied.push('w');
        }
        if bits & 1 == 1 {
            allowed.push('m');
        } else {
            denied.push('m');
        }
        proof {
            assert(allowed@ =~= granted_chars(access.spec_bits()));
            assert(denied@ =~= denied_chars(access.spec_bits()));
        }
        let deny_line = if denied.len() > 0 {
            Some(self.format_line(ty, major, minor, &denied))
        } else {
            None
        };
        let allow_line = if allowed.len() > 0 {
            Some(self.format_line(ty, major, minor, &allowed))
        } else {
            None
        };
        (deny_line, allow_line)
    }

    fn format_line(&self, ty: DeviceType, major: u32, minor: u32, chars: &Vec<char>) -> (r: String)
        ensures
            r@ == v1_line(ty, major, minor, chars@),
    {
        let ty_char = match ty {
            DeviceType::Character => 'c',
            DeviceType::Block => 'b',
        };
        let mut head: Vec<char> = Vec::new();
        head.push(ty_char);
        head.push(' ');
        let mut line = crate::escape::chars_to_string(&head);
        let major_s = u64_dec_string(major as u64);
        line.append(major_s.as_str());
        line.append(":");
        let minor_s = u64_dec_string(minor as u64);
        line.append(minor_s.as_str());
        line.append(" ");
        let tail = crate::escape::chars_to_string(chars);
        line.append(tail.as_str());
        proof {
            reveal_strlit(":");
            reveal_strlit(" ");
            assert(":"@ =~= seq![':']);
            assert(" "@ =~= seq![' ']);
            assert(head@ =~= seq![v1_type_char(ty), ' ']);
            assert(line@ =~= v1_line(ty, major, minor, chars@));
        }
        line
    }
}

} // verus!
