//! Symlink rules: `usb:<vid>:<pid>:<interface>=<path>` gives devices that
//! match the three udev ids a stable symlink at `path`.

use vstd::prelude::*;

use crate::device::Device;
use crate::device::prop_lookup;
use crate::device::str_eq;
use crate::escape::chars_to_string;
use crate::idmap::str_chars;
use crate::parse::SelectorParseError;
use crate::parse::find_sep;
use crate::parse::is_ascii_digit_char;
use crate::parse::is_hex4;
use crate::parse::spec_is_hex4;
use crate::parse::spec_split;
use crate::parse::spec_to_lower;
use crate::parse::to_ascii_lower;

verus! {

/// The device half of a symlink rule. The interface number is kept
/// zero-padded to two digits, as udev reports it.
#[derive(Debug, Clone)]
pub enum SymlinkDevice {
    Usb { vid: String, pid: String, if_num: String },
}

/// One symlink rule: a device match and the absolute path to create.
#[derive(Debug, Clone)]
pub struct Symlink {
    pub device: SymlinkDevice,
    pub path: String,
}

/// `s` zero-padded on the left to at least two characters.
pub open spec fn pad2(s: Seq<char>) -> Seq<char> {
    if s.len() >= 2 {
        s
    } else if s.len() == 1 {
        seq!['0'] + s
    } else {
        seq!['0', '0']
    }
}

/// Whether the `:`-separated pieces of a symlink device are well-formed:
/// exactly a four-hex-digit vendor id, a four-hex-digit product id, and a
/// non-empty decimal interface number.
pub open spec fn usb_symlink_ok(parts: Seq<Seq<char>>) -> bool {
    &&& parts.len() == 3
    &&& spec_is_hex4(parts[0])
    &&& spec_is_hex4(parts[1])
    &&& parts[2].len() >= 1
    &&& forall|i: int| 0 <= i < parts[2].len() ==> is_ascii_digit_char(#[trigger] parts[2][i])
}

/// Whether `s` is a well-formed symlink rule: exactly one `=`, an absolute
/// path not ending in `/` on the right, and `usb:` with a well-formed
/// device on the left.
pub open spec fn symlink_ok(s: Seq<char>) -> bool {
    let parts = spec_split(s, '=');
    &&& parts.len() == 2
    &&& parts[1].len() >= 1 && parts[1][0] == '/' && parts[1].last() != '/'
    &&& (match find_sep(parts[0], ':') {
        None => false,
        Some(i) => parts[0].take(i) == seq!['u', 's', 'b'] && usb_symlink_ok(
            spec_split(parts[0].skip(i + 1), ':'),
        ),
    })
}

/// What a successful parse of rule text `s` yields in `rule`: the path and
/// the normalised USB ids.
pub open spec fn parsed_symlink(rule: Symlink, s: Seq<char>) -> bool {
    let parts = spec_split(s, '=');
    &&& symlink_ok(s)
    &&& rule.path@ == parts[1]
    &&& (match rule.device {
        SymlinkDevice::Usb { vid, pid, if_num } => {
            match find_sep(parts[0], ':') {
                Some(i) => {
                    let ps = spec_split(parts[0].skip(i + 1), ':');
                    &&& vid@ == spec_to_lower(ps[0])
                    &&& pid@ == spec_to_lower(ps[1])
                    &&& if_num@ == pad2(ps[2])
                },
                None => false,
            }
        },
    })
}

impl Symlink {
    /// Parse a `<PREFIX>:<DEVICE>=<PATH>` symlink rule. Succeeds exactly on
    /// the well-formed rules; the vendor and product ids are folded to
    /// lower case and the interface number zero-padded to two digits.
    #[verifier::rlimit(100)]
    pub fn from_str(s: &str) -> (r: Result<Symlink, SelectorParseError>)
        ensures
            (r is Ok) == symlink_ok(s@),
            r matches Ok(rule) ==> parsed_symlink(rule, s@),
    {
        let chars = str_chars(s);
        let eq_parts = crate::parse::split_chars(&chars, 0, '=');
        let ghost sparts = spec_split(s@, '=');
        proof {
            assert(chars@.skip(0) =~= chars@);
            assert(eq_parts.deep_view() == sparts);
            assert forall|t: int| 0 <= t < eq_parts@.len() implies (#[trigger] eq_parts@[t]@)
                == sparts[t] by {
                assert(eq_parts.deep_view()[t] == eq_parts@[t]@);
            }
        }
        if eq_parts.len() != 2 {
            return Err(SelectorParseError);
        }
        let path = &eq_parts[1];
        let pn = path.as_str().unicode_len();
        if pn == 0 {
            return Err(SelectorParseError);
        }
        if !(path.as_str().get_char(0) == '/' && path.as_str().get_char(pn - 1) != '/') {
            return Err(SelectorParseError);
        }
        let dev = &eq_parts[0];
        let dev_chars = str_chars(dev.as_str());
        let dn = dev_chars.len();

        // Find the first `:` in the device half.
        let mut ci: usize = 0;
        while ci < dn && dev_chars[ci] != ':'
            invariant
                ci <= dn == dev_chars@.len(),
                forall|k: int| 0 <= k < ci ==> dev_chars@[k] != ':',
            decreases dn - ci,
        {
            ci = ci + 1;
        }
        proof {
            crate::parse::lemma_find_sep_at(dev_chars@, ':', ci as int);
        }
        if ci == dn {
            return Err(SelectorParseError);
        }
        if !(ci == 3 && dev_chars[0] == 'u' && dev_chars[1] == 's' && dev_chars[2] == 'b') {
            proof {
                if dev_chars@.take(ci as int) == seq!['u', 's', 'b'] {
                    assert(dev_chars@.take(ci as int).len() == 3);
                    assert(dev_chars@.take(3)[0] == dev_chars@[0]);
                    assert(dev_chars@.take(3)[1] == dev_chars@[1]);
                    assert(dev_chars@.take(3)[2] == dev_chars@[2]);
                }
            }
            return Err(SelectorParseError);
        }
        proof {
            assert(dev_chars@.take(3) =~= seq!['u', 's', 'b']);
        }

        let ps = crate::parse::split_chars(&dev_chars, ci + 1, ':');
        let ghost sps = spec_split(dev_chars@.skip(ci + 1), ':');
        proof {
            assert(ps.deep_view() == sps);
            assert forall|t: int| 0 <= t < ps@.len() implies (#[trigger] ps@[t]@) == sps[t] by {
                assert(ps.deep_view()[t] == ps@[t]@);
            }
        }
        if ps.len() != 3 {
            return Err(SelectorParseError);
        }
        if !is_hex4(ps[0].as_str()) {
            return Err(SelectorParseError);
        }
        if !is_hex4(ps[1].as_str()) {
            return Err(SelectorParseError);
        }
        let ifn = &ps[2];
        let ifn_len = ifn.as_str().unicode_len();
        if ifn_len == 0 {
            return Err(SelectorParseError);
        }
        let mut all_digits = true;
        for k in 0..ifn_len
            invariant
                ifn_len == ifn@.len(),
                all_digits == (forall|t: int| 0 <= t < k ==> is_ascii_digit_char(#[trigger] ifn@[t])),
        {
            let code = ifn.as_str().get_char(k) as u32;
            let d = 48 <= code && code <= 57;
            proof {
                if all_digits && d {
                    assert forall|t: int| 0 <= t < k + 1 implies is_ascii_digit_char(
                        #[trigger] ifn@[t],
                    ) by {}
                }
                if !d {
                    assert(!is_ascii_digit_char(ifn@[k as int]));
                }
            }
            all_digits = all_digits && d;
        }
        if !all_digits {
            return Err(SelectorParseError);
        }
        proof {
            crate::parse::lemma_hex4_ascii(sps[0]);
            crate::parse::lemma_hex4_ascii(sps[1]);
        }
        let vid = to_ascii_lower(ps[0].as_str());
        let pid = to_ascii_lower(ps[1].as_str());

        // Zero-pad the interface number to two digits.
        let if_num: String;
        if ifn_len >= 2 {
            if_num = ifn.clone();
            proof {
                assert(if_num@ == pad2(ifn@));
            }
        } else {
            let mut padded: Vec<char> = Vec::new();
            padded.push('0');
            padded.push(ifn.as_str().get_char(0));
            proof {
                assert(padded@ =~= pad2(ifn@));
            }
            if_num = chars_to_string(&padded);
        }

        Ok(Symlink {
            device: SymlinkDevice::Usb { vid, pid, if_num },
            path: path.clone(),
        })
    }
}

/// Whether a device's property bag matches the given USB ids: all three of
/// `ID_VENDOR_ID`, `ID_MODEL_ID` and `ID_USB_INTERFACE_NUM` are present and
/// equal to them.
pub open spec fn spec_usb_matches(
    props: Seq<(Seq<char>, Seq<char>)>,
    vid: Seq<char>,
    pid: Seq<char>,
    if_num: Seq<char>,
) -> bool {
    &&& prop_lookup(props, "ID_VENDOR_ID"@) == Some(vid)
    &&& prop_lookup(props, "ID_MODEL_ID"@) == Some(pid)
    &&& prop_lookup(props, "ID_USB_INTERFACE_NUM"@) == Some(if_num)
}

impl SymlinkDevice {
    /// Whether this rule matches the device's udev properties.
    pub fn matches(&self, device: &Device) -> (r: bool)
        ensures
            (match self {
                SymlinkDevice::Usb { vid, pid, if_num } => r == spec_usb_matches(
                    device.spec_properties(),
                    vid@,
                    pid@,
                    if_num@,
                ),
            }),
    {
        match self {
            SymlinkDevice::Usb { vid, pid, if_num } => {
                let v = match device.property("ID_VENDOR_ID") {
                    Some(v) => v,
                    None => {
                        return false;
                    },
                };
                if !str_eq(v.as_str(), vid.as_str()) {
                    return false;
                }
                let m = match device.property("ID_MODEL_ID") {
                    Some(m) => m,
                    None => {
                        return false;
                    },
                };
                if !str_eq(m.as_str(), pid.as_str()) {
                    return false;
                }
                let i = match device.property("ID_USB_INTERFACE_NUM") {
                    Some(i) => i,
                    None => {
                        return false;
                    },
                };
                str_eq(i.as_str(), if_num.as_str())
            },
        }
    }
}

impl Symlink {
    /// The path to create for `device`, where this rule matches it.
    pub fn matches(&self, device: &Device) -> (r: Option<String>)
        ensures
            (match self.device {
                SymlinkDevice::Usb { vid, pid, if_num } => {
                    if spec_usb_matches(device.spec_properties(), vid@, pid@, if_num@) {
                        r matches Some(p) && p@ == self.path@
                    } else {
                        r is None
                    }
                },
            }),
    {
        if self.device.matches(device) {
            Some(self.path.clone())
        } else {
            None
        }
    }
}

} // verus!
