//! The library's picture of one kernel device: its syspath, the cached
//! devnode record (path, type, major/minor — cached because the kernel drops
//! them at removal), and the udev property bag. Values of this type are
//! built from what the udev database reports.

use vstd::prelude::*;

use crate::access::DeviceType;
use crate::escape::spec_unescape;
use crate::escape::unescape_devnode;
use crate::idmap::is_ascii_ws;
use crate::idmap::is_ws_char;
use crate::idmap::str_chars;

verus! {

/// The major number encoded in a kernel `dev_t`.
pub open spec fn spec_dev_major(dev: u64) -> u32 {
    (((dev >> 32) & 0xffff_f000) | ((dev >> 8) & 0xfff)) as u32
}

/// The minor number encoded in a kernel `dev_t`.
pub open spec fn spec_dev_minor(dev: u64) -> u32 {
    (((dev >> 12) & 0xffff_ff00) | (dev & 0xff)) as u32
}

/// Split a kernel `dev_t` into its major and minor numbers.
pub fn dev_major_minor(dev: u64) -> (r: (u32, u32))
    ensures
        r.0 == spec_dev_major(dev),
        r.1 == spec_dev_minor(dev),
{
    proof {
        assert((((dev >> 32) & 0xffff_f000) | ((dev >> 8) & 0xfff)) <= 0xffff_ffff) by (bit_vector);
        assert((((dev >> 12) & 0xffff_ff00) | (dev & 0xff)) <= 0xffff_ffff) by (bit_vector);
    }
    let major = (((dev >> 32) & 0xffff_f000) | ((dev >> 8) & 0xfff)) as u32;
    let minor = (((dev >> 12) & 0xffff_ff00) | (dev & 0xff)) as u32;
    (major, minor)
}

/// The devnode record of a device: its path under `/dev`, whether it is a
/// block or character device, and its major/minor pair.
#[derive(Debug, Clone)]
pub struct DevNode {
    pub path: String,
    pub ty: DeviceType,
    pub major: u32,
    pub minor: u32,
}

impl DevNode {
    /// The `(major, minor)` pair.
    pub fn devnum(&self) -> (r: (u32, u32))
        ensures
            r.0 == self.major,
            r.1 == self.minor,
    {
        (self.major, self.minor)
    }
}

/// A device as the supervisor sees it.
#[derive(Debug, Clone)]
pub struct Device {
    syspath: String,
    subsystem: Option<String>,
    devtype: Option<String>,
    properties: Vec<(String, String)>,
    devnode: Option<DevNode>,
}

/// The value of the first property named `key`, if any.
pub open spec fn prop_lookup(props: Seq<(Seq<char>, Seq<char>)>, key: Seq<char>) -> Option<Seq<char>>
    decreases props.len(),
{
    if props.len() == 0 {
        None
    } else if props[0].0 == key {
        Some(props[0].1)
    } else {
        prop_lookup(props.drop_first(), key)
    }
}

impl Device {
    /// The syspath naming this device.
    pub closed spec fn spec_syspath(self) -> Seq<char> {
        self.syspath@
    }

    /// The subsystem, where the udev database reported one.
    pub closed spec fn spec_subsystem(self) -> Option<Seq<char>> {
        match self.subsystem {
            Some(s) => Some(s@),
            None => None,
        }
    }

    /// The devtype, where the udev database reported one.
    pub closed spec fn spec_devtype(self) -> Option<Seq<char>> {
        match self.devtype {
            Some(s) => Some(s@),
            None => None,
        }
    }

    /// The property bag, as key/value character sequences.
    pub closed spec fn spec_properties(self) -> Seq<(Seq<char>, Seq<char>)> {
        self.properties.deep_view()
    }

    /// The cached devnode record, if the device has a device node.
    pub closed spec fn spec_devnode(self) -> Option<DevNode> {
        self.devnode
    }

    /// Build a device from what the udev database reports. The devnode
    /// record exists only when both a devnode path and a device number were
    /// reported; everything outside the `block` subsystem is a character
    /// device.
    pub fn from_parts(
        syspath: String,
        subsystem: Option<String>,
        devtype: Option<String>,
        devnode_path: Option<String>,
        devnum: Option<u64>,
        properties: Vec<(String, String)>,
    ) -> (r: Device)
        ensures
            r.spec_syspath() == syspath@,
            r.spec_subsystem() == (match subsystem {
                Some(s) => Some(s@),
                None => None,
            }),
            r.spec_devtype() == (match devtype {
                Some(s) => Some(s@),
                None => None,
            }),
            r.spec_properties() == properties.deep_view(),
            ({
                let node = r.spec_devnode();
                match (devnode_path, devnum) {
                    (Some(path), Some(dev)) => {
                        &&& node matches Some(n)
                        &&& n.path@ == path@
                        &&& n.major == spec_dev_major(dev)
                        &&& n.minor == spec_dev_minor(dev)
                        &&& n.ty == (match subsystem {
                            Some(s) => if s@ == "block"@ {
                                DeviceType::Block
                            } else {
                                DeviceType::Character
                            },
                            None => DeviceType::Character,
                        })
                    },
                    _ => node is None,
                }
            }),
    {
        let devnode = match (devnode_path, devnum) {
            (Some(path), Some(dev)) => {
                let ty = match &subsystem {
                    Some(s) => {
                        if str_eq(s.as_str(), "block") {
                            DeviceType::Block
                        } else {
                            DeviceType::Character
                        }
                    },
                    None => DeviceType::Character,
                };
                let (major, minor) = dev_major_minor(dev);
                Some(DevNode { path, ty, major, minor })
            },
            _ => None,
        };
        Device { syspath, subsystem, devtype, properties, devnode }
    }

    /// The syspath naming this device.
    pub fn syspath(&self) -> (r: &String)
        ensures
            r@ == self.spec_syspath(),
    {
        &self.syspath
    }

    /// The subsystem, where one was reported.
    pub fn subsystem(&self) -> (r: &Option<String>)
        ensures
            (match r {
                Some(s) => Some(s@),
                None => None,
            }) == self.spec_subsystem(),
    {
        &self.subsystem
    }

    /// The devtype, where one was reported.
    pub fn devtype(&self) -> (r: &Option<String>)
        ensures
            (match r {
                Some(s) => Some(s@),
                None => None,
            }) == self.spec_devtype(),
    {
        &self.devtype
    }

    /// The property bag.
    pub fn properties(&self) -> (r: &Vec<(String, String)>)
        ensures
            r.deep_view() == self.spec_properties(),
    {
        &self.properties
    }

    /// The cached devnode record.
    pub fn devnode(&self) -> (r: &Option<DevNode>)
        ensures
            *r == self.spec_devnode(),
    {
        &self.devnode
    }

    /// The value of the first property named `key`, if any.
    pub fn property(&self, key: &str) -> (r: Option<&String>)
        ensures
            (match r {
                Some(v) => Some(v@),
                None => None,
            }) == prop_lookup(self.spec_properties(), key@),
    {
        let n = self.properties.len();
        proof {
            assert(self.spec_properties().skip(0) == self.spec_properties());
        }
        for i in 0..n
            invariant
                n == self.properties@.len(),
                prop_lookup(self.spec_properties(), key@) == prop_lookup(
                    self.spec_properties().skip(i as int),
                    key@,
                ),
        {
            let ghost rest = self.spec_properties().skip(i as int);
            proof {
                assert(rest[0] == self.spec_properties()[i as int]);
                assert(self.spec_properties()[i as int] == (
                    self.properties@[i as int].0@,
                    self.properties@[i as int].1@,
                ));
                assert(rest.drop_first() =~= self.spec_properties().skip(i + 1));
            }
            if str_eq(self.properties[i].0.as_str(), key) {
                return Some(&self.properties[i].1);
            }
        }
        proof {
            assert(self.spec_properties().skip(n as int) =~= Seq::<(Seq<char>, Seq<char>)>::empty());
        }
        None
    }
}

/// `s` without its leading ASCII whitespace.
pub open spec fn trim_start(s: Seq<char>) -> Seq<char>
    decreases s.len(),
{
    if s.len() > 0 && is_ascii_ws(s[0]) {
        trim_start(s.drop_first())
    } else {
        s
    }
}

/// `s` without its trailing ASCII whitespace.
pub open spec fn trim_end(s: Seq<char>) -> Seq<char>
    decreases s.len(),
{
    if s.len() > 0 && is_ascii_ws(s.last()) {
        trim_end(s.drop_last())
    } else {
        s
    }
}

/// `s` without leading and trailing ASCII whitespace.
pub open spec fn spec_trim(s: Seq<char>) -> Seq<char> {
    trim_end(trim_start(s))
}

proof fn lemma_trim_start_at(s: Seq<char>, a: int)
    requires
        0 <= a <= s.len(),
        forall|k: int| 0 <= k < a ==> is_ascii_ws(#[trigger] s[k]),
        a == s.len() || !is_ascii_ws(s[a]),
    ensures
        trim_start(s) == s.skip(a),
    decreases a,
{
    if a == 0 {
        assert(s.skip(0) =~= s);
    } else {
        assert(s.drop_first().skip(a - 1) =~= s.skip(a));
        lemma_trim_start_at(s.drop_first(), a - 1);
    }
}

proof fn lemma_trim_end_at(s: Seq<char>, b: int)
    requires
        0 <= b <= s.len(),
        forall|k: int| b <= k < s.len() ==> is_ascii_ws(#[trigger] s[k]),
        b == 0 || !is_ascii_ws(s[b - 1]),
    ensures
        trim_end(s) == s.take(b),
    decreases s.len() - b,
{
    if b == s.len() {
        assert(s.take(b) =~= s);
    } else {
        assert(s.drop_last().take(b) =~= s.take(b));
        lemma_trim_end_at(s.drop_last(), b);
    }
}

/// The characters of `s` without leading and trailing ASCII whitespace.
fn trim_chars(s: &Vec<char>) -> (r: Vec<char>)
    ensures
        r@ == spec_trim(s@),
{
    let n = s.len();
    let mut a: usize = 0;
    while a < n && is_ws_char(s[a])
        invariant
            a <= n == s@.len(),
            forall|k: int| 0 <= k < a ==> is_ascii_ws(#[trigger] s@[k]),
        decreases n - a,
    {
        a = a + 1;
    }
    proof {
        lemma_trim_start_at(s@, a as int);
    }
    let mut b: usize = n;
    while b > a && is_ws_char(s[b - 1])
        invariant
            a <= b <= n == s@.len(),
            trim_start(s@) == s@.skip(a as int),
            forall|k: int| b <= k < n ==> is_ascii_ws(#[trigger] s@[k]),
        decreases b,
    {
        b = b - 1;
    }
    proof {
        let mid = s@.skip(a as int);
        assert forall|k: int| b - a <= k < mid.len() implies is_ascii_ws(#[trigger] mid[k]) by {
            assert(mid[k] == s@[a + k]);
        }
        if b > a {
            assert(mid[b - a - 1] == s@[b - 1]);
        }
        lemma_trim_end_at(mid, b - a);
        assert(mid.take(b - a) =~= s@.subrange(a as int, b as int));
    }
    let mut r: Vec<char> = Vec::new();
    let mut i = a;
    while i < b
        invariant
            a <= i <= b <= s@.len(),
            r@ == s@.subrange(a as int, i as int),
        decreases b - i,
    {
        r.push(s[i]);
        proof {
            assert(r@ =~= s@.subrange(a as int, i + 1));
        }
        i = i + 1;
    }
    r
}

/// The vendor name the property bag yields: the database name where
/// present, else the udev-escaped `ID_VENDOR_ENC` value, unescaped.
pub open spec fn spec_vendor_name(props: Seq<(Seq<char>, Seq<char>)>) -> Option<Seq<char>> {
    match prop_lookup(props, "ID_VENDOR_FROM_DATABASE"@) {
        Some(v) => Some(v),
        None => match prop_lookup(props, "ID_VENDOR_ENC"@) {
            Some(e) => spec_unescape(e),
            None => None,
        },
    }
}

/// The model name the property bag yields, like `spec_vendor_name`.
pub open spec fn spec_model_name(props: Seq<(Seq<char>, Seq<char>)>) -> Option<Seq<char>> {
    match prop_lookup(props, "ID_MODEL_FROM_DATABASE"@) {
        Some(v) => Some(v),
        None => match prop_lookup(props, "ID_MODEL_ENC"@) {
            Some(e) => spec_unescape(e),
            None => None,
        },
    }
}

impl Device {
    fn lookup_name(&self, db_key: &str, enc_key: &str) -> (r: Option<Vec<char>>)
        ensures
            ({
                let spec_r = match prop_lookup(self.spec_properties(), db_key@) {
                    Some(v) => Some(v),
                    None => match prop_lookup(self.spec_properties(), enc_key@) {
                        Some(e) => spec_unescape(e),
                        None => None,
                    },
                };
                match r {
                    Some(v) => spec_r == Some(v@),
                    None => spec_r is None,
                }
            }),
    {
        match self.property(db_key) {
            Some(v) => Some(str_chars(v.as_str())),
            None => match self.property(enc_key) {
                Some(e) => match unescape_devnode(e.as_str()) {
                    Ok(u) => Some(str_chars(u.as_str())),
                    Err(_) => None,
                },
                None => None,
            },
        }
    }

    /// A human-readable name: the trimmed vendor and model names joined by
    /// one space, where both can be derived from the property bag. Leading
    /// and trailing ASCII whitespace is trimmed.
    pub fn display_name(&self) -> (r: Option<String>)
        ensures
            ({
                let props = self.spec_properties();
                match (spec_vendor_name(props), spec_model_name(props)) {
                    (Some(v), Some(m)) => r matches Some(name) && name@ == spec_trim(v) + seq![' ']
                        + spec_trim(m),
                    _ => r is None,
                }
            }),
    {
        let vendor = match self.lookup_name("ID_VENDOR_FROM_DATABASE", "ID_VENDOR_ENC") {
            Some(v) => v,
            None => {
                return None;
            },
        };
        let model = match self.lookup_name("ID_MODEL_FROM_DATABASE", "ID_MODEL_ENC") {
            Some(m) => m,
            None => {
                return None;
            },
        };
        let vendor_trim = trim_chars(&vendor);
        let model_trim = trim_chars(&model);
        let mut name: Vec<char> = Vec::new();
        let mut i: usize = 0;
        let vn = vendor_trim.len();
        while i < vn
            invariant
                i <= vn == vendor_trim@.len(),
                name@ == vendor_trim@.take(i as int),
            decreases vn - i,
        {
            name.push(vendor_trim[i]);
            proof {
                assert(name@ =~= vendor_trim@.take(i + 1));
            }
            i = i + 1;
        }
        name.push(' ');
        let mn = model_trim.len();
        let mut j: usize = 0;
        while j < mn
            invariant
                j <= mn == model_trim@.len(),
                vn == vendor_trim@.len(),
                name@ == vendor_trim@.take(vn as int) + seq![' '] + model_trim@.take(j as int),
            decreases mn - j,
        {
            name.push(model_trim[j]);
            proof {
                assert(name@ =~= vendor_trim@.take(vn as int) + seq![' '] + model_trim@.take(
                    j + 1,
                ));
            }
            j = j + 1;
        }
        proof {
            assert(vendor_trim@.take(vn as int) =~= vendor_trim@);
            assert(model_trim@.take(mn as int) =~= model_trim@);
        }
        Some(crate::escape::chars_to_string(&name))
    }
}

/// The observable content of a devnode record.
pub open spec fn devnode_view(n: DevNode) -> (Seq<char>, DeviceType, u32, u32) {
    (n.path@, n.ty, n.major, n.minor)
}

/// Whether two device values describe the same device: every observable
/// part — syspath, subsystem, devtype, properties and devnode record — is
/// equal.
pub open spec fn same_device(a: Device, b: Device) -> bool {
    &&& a.spec_syspath() == b.spec_syspath()
    &&& a.spec_subsystem() == b.spec_subsystem()
    &&& a.spec_devtype() == b.spec_devtype()
    &&& a.spec_properties() == b.spec_properties()
    &&& (match (a.spec_devnode(), b.spec_devnode()) {
        (Some(x), Some(y)) => devnode_view(x) == devnode_view(y),
        (None, None) => true,
        _ => false,
    })
}

impl Device {
    /// A copy of this device with the same observable content.
    pub fn duplicate(&self) -> (r: Device)
        ensures
            same_device(r, *self),
    {
        let subsystem = match &self.subsystem {
            Some(s) => Some(s.clone()),
            None => None,
        };
        let devtype = match &self.devtype {
            Some(s) => Some(s.clone()),
            None => None,
        };
        let devnode = match &self.devnode {
            Some(n) => Some(
                DevNode { path: n.path.clone(), ty: n.ty, major: n.major, minor: n.minor },
            ),
            None => None,
        };
        let mut properties: Vec<(String, String)> = Vec::new();
        let n = self.properties.len();
        for i in 0..n
            invariant
                n == self.properties@.len(),
                properties.deep_view() =~~= self.properties.deep_view().take(i as int),
        {
            properties.push((self.properties[i].0.clone(), self.properties[i].1.clone()));
            proof {
                assert(properties@.last() == self.properties@[i as int]);
                assert(properties.deep_view() =~~= self.properties.deep_view().take(i + 1));
            }
        }
        proof {
            assert(self.properties.deep_view().take(n as int) =~~= self.properties.deep_view());
        }
        Device {
            syspath: self.syspath.clone(),
            subsystem,
            devtype,
            properties,
            devnode,
        }
    }
}

/// Whether two strings hold the same characters.
pub fn str_eq(a: &str, b: &str) -> (r: bool)
    ensures
        r == (a@ == b@),
{
    let an = a.unicode_len();
    let bn = b.unicode_len();
    if an != bn {
        proof {
            assert(a@.len() != b@.len());
        }
        return false;
    }
    for i in 0..an
        invariant
            an == a@.len() && an == b@.len(),
            forall|j: int| 0 <= j < i ==> a@[j] == b@[j],
    {
        if a.get_char(i) != b.get_char(i) {
            return false;
        }
    }
    proof {
        assert(a@ =~= b@);
    }
    true
}

} // verus!
