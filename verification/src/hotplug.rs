//! The hotplug core: for each added device, grant filter access, create the
//! devnode and any configured symlinks, and record it in the live set; for
//! each removal, revoke and remove in the same order. The container-side
//! actions are returned as an ordered list of operations for the caller to
//! perform against the container.

use vstd::prelude::*;
use vstd::map::*;

use crate::access::Access;
use crate::access::DeviceType;
use crate::device::DevNode;
use crate::device::Device;
use crate::device::same_device;
use crate::symlink::Symlink;
use crate::symlink::SymlinkDevice;
use crate::symlink::spec_usb_matches;

verus! {

/// A device currently exposed inside the container: the cached device
/// record and the symlink paths created for it.
#[derive(Debug)]
pub struct AttachedDevice {
    pub device: Device,
    pub symlinks: Vec<String>,
}

/// Whether two attached-device values describe the same attachment.
pub open spec fn same_attached(a: AttachedDevice, b: AttachedDevice) -> bool {
    same_device(a.device, b.device) && a.symlinks.deep_view() == b.symlinks.deep_view()
}

impl AttachedDevice {
    /// A copy with the same observable content.
    pub fn duplicate(&self) -> (r: AttachedDevice)
        ensures
            same_attached(r, *self),
    {
        let device = self.device.duplicate();
        let mut symlinks: Vec<String> = Vec::new();
        let n = self.symlinks.len();
        for i in 0..n
            invariant
                n == self.symlinks@.len(),
                symlinks@.len() == i,
                forall|t: int| 0 <= t < i ==> symlinks@[t] == self.symlinks@[t],
        {
            symlinks.push(self.symlinks[i].clone());
        }
        proof {
            assert forall|t: int| 0 <= t < n implies symlinks.deep_view()[t]
                == self.symlinks.deep_view()[t] by {
                assert(symlinks@[t] == self.symlinks@[t]);
            }
            assert(symlinks.deep_view() =~~= self.symlinks.deep_view());
        }
        AttachedDevice { device, symlinks }
    }
}

/// One container-side operation, to be performed in list order.
#[derive(Debug)]
pub enum DeviceOp {
    /// Store (or, for the empty mask, clear) a filter-map rule.
    Permission { ty: DeviceType, major: u32, minor: u32, access: Access },
    /// Create a device node inside the container.
    Mknod { path: String, ty: DeviceType, major: u32, minor: u32 },
    /// Create a symlink inside the container.
    Symlink { source: String, link: String },
    /// Remove a path inside the container, best effort.
    Rm { path: String },
}

/// Whether `op` grants or clears exactly this rule.
pub open spec fn op_is_permission(op: DeviceOp, ty: DeviceType, major: u32, minor: u32, bits: u32) -> bool {
    op matches DeviceOp::Permission { ty: t, major: ma, minor: mi, access }
        && t == ty && ma == major && mi == minor && access.spec_bits() == bits && access.wf()
}

/// Whether `op` creates exactly this device node.
pub open spec fn op_is_mknod(op: DeviceOp, path: Seq<char>, ty: DeviceType, major: u32, minor: u32) -> bool {
    op matches DeviceOp::Mknod { path: p, ty: t, major: ma, minor: mi }
        && p@ == path && t == ty && ma == major && mi == minor
}

/// Whether `op` creates exactly this symlink.
pub open spec fn op_is_symlink(op: DeviceOp, source: Seq<char>, link: Seq<char>) -> bool {
    op matches DeviceOp::Symlink { source: s, link: l } && s@ == source && l@ == link
}

/// Whether `op` removes exactly this path.
pub open spec fn op_is_rm(op: DeviceOp, path: Seq<char>) -> bool {
    op matches DeviceOp::Rm { path: p } && p@ == path
}

/// Whether one symlink rule matches a property bag.
pub open spec fn rule_matches(rule: Symlink, props: Seq<(Seq<char>, Seq<char>)>) -> bool {
    match rule.device {
        SymlinkDevice::Usb { vid, pid, if_num } => spec_usb_matches(props, vid@, pid@, if_num@),
    }
}

/// The link paths of the rules that match `props`, in rule order.
pub open spec fn matched_symlinks(rules: Seq<Symlink>, props: Seq<(Seq<char>, Seq<char>)>) -> Seq<Seq<char>>
    decreases rules.len(),
{
    if rules.len() == 0 {
        Seq::empty()
    } else {
        (if rule_matches(rules[0], props) {
            seq![rules[0].path@]
        } else {
            Seq::<Seq<char>>::empty()
        }) + matched_symlinks(rules.drop_first(), props)
    }
}

/// The live map a sequence of `(syspath, attachment)` entries denotes.
pub open spec fn live_map(s: Seq<(String, AttachedDevice)>) -> Map<Seq<char>, AttachedDevice>
    decreases s.len(),
{
    if s.len() == 0 {
        Map::empty()
    } else {
        live_map(s.drop_last()).insert(s.last().0@, s.last().1)
    }
}

/// The attach ordering: grant access first, then create the node, then the
/// symlinks.
pub open spec fn attach_ops_ok(ops: Seq<DeviceOp>, node: DevNode, links: Seq<Seq<char>>) -> bool {
    &&& ops.len() == 2 + links.len()
    &&& op_is_permission(ops[0], node.ty, node.major, node.minor, 7)
    &&& op_is_mknod(ops[1], node.path@, node.ty, node.major, node.minor)
    &&& forall|j: int| 0 <= j < links.len() ==> op_is_symlink(#[trigger] ops[2 + j], node.path@, links[j])
}

/// The detach ordering: revoke access first, then remove the node, then the
/// symlinks.
pub open spec fn detach_ops_ok(ops: Seq<DeviceOp>, node_path: Seq<char>, node_ty: DeviceType, major: u32, minor: u32, links: Seq<Seq<char>>) -> bool {
    &&& ops.len() == 2 + links.len()
    &&& op_is_permission(ops[0], node_ty, major, minor, 0)
    &&& op_is_rm(ops[1], node_path)
    &&& forall|j: int| 0 <= j < links.len() ==> op_is_rm(#[trigger] ops[2 + j], links[j])
}

/// The hotplug core's state: the configured symlink rules and the live set
/// of attached devices, keyed by syspath.
pub struct HotPlug {
    symlinks: Vec<Symlink>,
    devices: Vec<(String, AttachedDevice)>,
}

impl HotPlug {
    /// The configured symlink rules.
    pub closed spec fn spec_rules(self) -> Seq<Symlink> {
        self.symlinks@
    }

    /// The live set, by syspath.
    pub closed spec fn spec_live(self) -> Map<Seq<char>, AttachedDevice> {
        live_map(self.devices@)
    }

    /// Internal invariant: live keys are distinct, each entry is keyed by
    /// its device's syspath, and every attachment has a devnode record.
    pub closed spec fn wf(self) -> bool {
        &&& forall|i: int, j: int|
            0 <= i < j < self.devices@.len() ==> (#[trigger] self.devices@[i]).0@ != (
            #[trigger] self.devices@[j]).0@
        &&& forall|i: int|
            0 <= i < self.devices@.len() ==> (#[trigger] self.devices@[i]).0@
                == self.devices@[i].1.device.spec_syspath()
        &&& forall|i: int|
            0 <= i < self.devices@.len() ==> (#[trigger] self.devices@[i]).1.device.spec_devnode()
                is Some
    }

    proof fn lemma_live_characterisation(s: Seq<(String, AttachedDevice)>)
        requires
            forall|i: int, j: int| 0 <= i < j < s.len() ==> (#[trigger] s[i]).0@ != (#[trigger] s[j]).0@,
        ensures
            forall|k: Seq<char>|
                #[trigger] live_map(s).contains_key(k) <==> exists|i: int|
                    0 <= i < s.len() && (#[trigger] s[i]).0@ == k,
            forall|i: int| 0 <= i < s.len() ==> live_map(s)[#[trigger] s[i].0@] == s[i].1,
        decreases s.len(),
    {
        if s.len() > 0 {
            let prefix = s.drop_last();
            Self::lemma_live_characterisation(prefix);
            assert forall|i: int| 0 <= i < s.len() implies live_map(s)[#[trigger] s[i].0@]
                == s[i].1 by {
                if i < s.len() - 1 {
                    assert(s[i] == prefix[i]);
                    assert(s[i].0@ != s.last().0@);
                }
            }
            assert forall|k: Seq<char>| #[trigger]
                live_map(s).contains_key(k) implies exists|i: int|
                0 <= i < s.len() && (#[trigger] s[i]).0@ == k by {
                assert(live_map(s) == live_map(prefix).insert(s.last().0@, s.last().1));
                if k == s.last().0@ {
                    let i = s.len() - 1;
                    assert(0 <= i < s.len() && s[i].0@ == k);
                } else {
                    assert(live_map(prefix).contains_key(k));
                    let i = choose|i: int| 0 <= i < prefix.len() && (#[trigger] prefix[i]).0@ == k;
                    assert(prefix[i] == s[i]);
                    assert(0 <= i < s.len() && s[i].0@ == k);
                }
            }
            assert forall|k: Seq<char>| (exists|i: int|
                0 <= i < s.len() && (#[trigger] s[i]).0@ == k) implies live_map(s).contains_key(
                k,
            ) by {
                let i = choose|i: int| 0 <= i < s.len() && (#[trigger] s[i]).0@ == k;
                if i < s.len() - 1 {
                    assert(prefix[i].0@ == k);
                }
            }
        }
    }

    /// A fresh core with the given symlink rules and an empty live set.
    pub fn new(symlinks: Vec<Symlink>) -> (r: HotPlug)
        ensures
            r.wf(),
            r.spec_rules() == symlinks@,
            r.spec_live() == Map::<Seq<char>, AttachedDevice>::empty(),
    {
        HotPlug { symlinks, devices: Vec::new() }
    }

    fn find_live(&self, key: &str) -> (r: Option<usize>)
        requires
            self.wf(),
        ensures
            match r {
                Some(i) => i < self.devices@.len() && self.devices@[i as int].0@ == key@,
                None => !self.spec_live().contains_key(key@),
            },
    {
        proof {
            Self::lemma_live_characterisation(self.devices@);
        }
        let n = self.devices.len();
        for i in 0..n
            invariant
                n == self.devices@.len(),
                forall|j: int| 0 <= j < i ==> (#[trigger] self.devices@[j]).0@ != key@,
        {
            if crate::device::str_eq(self.devices[i].0.as_str(), key) {
                return Some(i);
            }
        }
        None
    }

    /// The link paths of the configured rules that match `device`, in rule
    /// order.
    fn match_symlinks(&self, device: &Device) -> (r: Vec<String>)
        ensures
            r.deep_view() == matched_symlinks(self.spec_rules(), device.spec_properties()),
    {
        let mut out: Vec<String> = Vec::new();
        let n = self.symlinks.len();
        proof {
            assert(self.spec_rules().skip(0) =~= self.spec_rules());
        }
        for i in 0..n
            invariant
                n == self.symlinks@.len(),
                matched_symlinks(self.spec_rules(), device.spec_properties()) =~~= out.deep_view()
                    + matched_symlinks(
                    self.spec_rules().skip(i as int),
                    device.spec_properties(),
                ),
        {
            let ghost rest = self.spec_rules().skip(i as int);
            proof {
                assert(rest[0] == self.spec_rules()[i as int]);
                assert(rest.drop_first() =~= self.spec_rules().skip(i + 1));
            }
            match self.symlinks[i].matches(device) {
                Some(path) => {
                    out.push(path);
                    proof {
                        assert(out.deep_view() =~~= out.deep_view().drop_last().push(
                            out@.last()@,
                        ));
                    }
                },
                None => {},
            }
        }
        proof {
            assert(self.spec_rules().skip(n as int) =~= Seq::<Symlink>::empty());
            assert(out.deep_view() + Seq::<Seq<char>>::empty() =~~= out.deep_view());
        }
        out
    }

    /// Digest an `Add`: a device without a devnode is ignored. A syspath
    /// still in the live set is reversed first (its access revoked, its node
    /// and symlinks removed), as a reappearance means the old resources are
    /// stale. Then the operations grant access, create the node and the
    /// matched symlinks, in that order, and the attachment enters the live
    /// set.
    #[verifier::rlimit(100)]
    pub fn process_add(&mut self, device: Device) -> (r: (Vec<DeviceOp>, Option<AttachedDevice>))
        requires
            old(self).wf(),
        ensures
            final(self).wf(),
            final(self).spec_rules() == old(self).spec_rules(),
            ({
                let k = device.spec_syspath();
                let links = matched_symlinks(old(self).spec_rules(), device.spec_properties());
                match device.spec_devnode() {
                    Some(node) => {
                        &&& (if old(self).spec_live().contains_key(k) {
                            let stale = old(self).spec_live()[k];
                            let slinks = stale.symlinks.deep_view();
                            let snode = stale.device.spec_devnode()->Some_0;
                            &&& stale.device.spec_devnode() is Some
                            &&& r.0@.len() >= 2 + slinks.len()
                            &&& detach_ops_ok(
                                r.0@.take(2 + slinks.len() as int),
                                snode.path@,
                                snode.ty,
                                snode.major,
                                snode.minor,
                                slinks,
                            )
                            &&& attach_ops_ok(r.0@.skip(2 + slinks.len() as int), node, links)
                        } else {
                            attach_ops_ok(r.0@, node, links)
                        })
                        &&& r.1 matches Some(att) && same_device(att.device, device)
                            && att.symlinks.deep_view() == links
                        &&& final(self).spec_live().contains_key(k)
                        &&& same_attached(final(self).spec_live()[k], r.1->Some_0)
                        &&& forall|kk: Seq<char>|
                            kk != k ==> (#[trigger] final(self).spec_live().contains_key(kk)
                                == old(self).spec_live().contains_key(kk)) && (old(
                                self,
                            ).spec_live().contains_key(kk) ==> final(self).spec_live()[kk] == old(
                                self,
                            ).spec_live()[kk])
                    },
                    None => {
                        &&& r.0@.len() == 0
                        &&& r.1 is None
                        &&& final(self).spec_live() == old(self).spec_live()
                    },
                }
            }),
    {
        let node = match self.node_of(&device) {
            Some(node) => node,
            None => {
                return (Vec::new(), None);
            },
        };
        let ghost k = device.spec_syspath();
        let ghost live0 = self.spec_live();
        proof {
            Self::lemma_live_characterisation(self.devices@);
        }
        let mut ops: Vec<DeviceOp> = Vec::new();

        // Reverse a stale attachment under the same syspath first.
        match self.find_live(device.syspath().as_str()) {
            Some(i) => {
                let ghost old_devices = self.devices@;
                let (_, stale) = self.devices.swap_remove(i);
                proof {
                    let new = self.devices@;
                    assert forall|a: int, b: int| 0 <= a < b < new.len() implies (
                    #[trigger] new[a]).0@ != (#[trigger] new[b]).0@ by {
                        Self::lemma_swap_remove_entry(old_devices, i as int, a);
                        Self::lemma_swap_remove_entry(old_devices, i as int, b);
                    }
                    assert forall|a: int| 0 <= a < new.len() implies (#[trigger] new[a]).0@
                        == new[a].1.device.spec_syspath() && new[a].1.device.spec_devnode()
                        is Some by {
                        Self::lemma_swap_remove_entry(old_devices, i as int, a);
                    }
                    Self::lemma_live_characterisation(new);
                    assert forall|kk: Seq<char>| #[trigger]
                        live_map(new).contains_key(kk) implies live_map(old_devices).remove(
                        k,
                    ).contains_key(kk) && live_map(new)[kk] == live_map(old_devices).remove(
                        k,
                    )[kk] by {
                        let a = choose|a: int| 0 <= a < new.len() && (#[trigger] new[a]).0@ == kk;
                        Self::lemma_swap_remove_entry(old_devices, i as int, a);
                        let b = if a == i { old_devices.len() - 1 } else { a };
                        assert(old_devices[b].0@ == kk && old_devices[b].1 == new[a].1);
                        assert(kk != k);
                    }
                    assert forall|kk: Seq<char>| #[trigger]
                        live_map(old_devices).remove(k).contains_key(kk) implies live_map(
                        new,
                    ).contains_key(kk) by {
                        let b = choose|b: int|
                            0 <= b < old_devices.len() && (#[trigger] old_devices[b]).0@ == kk;
                        let a = if b == old_devices.len() - 1 { i as int } else { b };
                        assert(b != i);
                        Self::lemma_swap_remove_entry(old_devices, i as int, a);
                        assert(new[a].0@ == kk);
                    }
                    assert_maps_equal!(live_map(new), live_map(old_devices).remove(k));
                    let idx = i as int;
                    assert(live_map(old_devices)[old_devices[idx].0@] == old_devices[idx].1);
                }
                let snode = match stale.device.devnode() {
                    Some(n) => n,
                    None => {
                        // Unreachable: the invariant gives every attachment a
                        // node.
                        proof {
                            assert(false);
                        }
                        return (Vec::new(), None);
                    },
                };
                ops.push(
                    DeviceOp::Permission {
                        ty: snode.ty,
                        major: snode.major,
                        minor: snode.minor,
                        access: Access::empty(),
                    },
                );
                ops.push(DeviceOp::Rm { path: snode.path.clone() });
                let sn = stale.symlinks.len();
                for j in 0..sn
                    invariant
                        sn == stale.symlinks@.len(),
                        ops@.len() == 2 + j,
                        op_is_permission(ops@[0], snode.ty, snode.major, snode.minor, 0),
                        op_is_rm(ops@[1], snode.path@),
                        forall|t: int|
                            0 <= t < j ==> op_is_rm(
                                #[trigger] ops@[2 + t],
                                stale.symlinks.deep_view()[t],
                            ),
                {
                    ops.push(DeviceOp::Rm { path: stale.symlinks[j].clone() });
                    proof {
                        assert(ops@[2 + j] matches DeviceOp::Rm { path } && path@
                            == stale.symlinks.deep_view()[j as int]);
                    }
                }
            },
            None => {},
        }
        let ghost detach_prefix = ops@;
        proof {
            assert(!self.spec_live().contains_key(k)) by {
                Self::lemma_live_characterisation(self.devices@);
                if self.spec_live().contains_key(k) {
                    let a = choose|a: int|
                        0 <= a < self.devices@.len() && (#[trigger] self.devices@[a]).0@ == k;
                }
            }
        }

        // Grant access, create the node, then the matched symlinks.
        let links = self.match_symlinks(&device);
        ops.push(
            DeviceOp::Permission {
                ty: node.ty,
                major: node.major,
                minor: node.minor,
                access: Access::all(),
            },
        );
        ops.push(
            DeviceOp::Mknod {
                path: node.path.clone(),
                ty: node.ty,
                major: node.major,
                minor: node.minor,
            },
        );
        let ln = links.len();
        let ghost links_view = links.deep_view();
        let ghost base = detach_prefix.len() as int;
        for j in 0..ln
            invariant
                ln == links@.len(),
                links.deep_view() == links_view,
                base == detach_prefix.len() as int,
                ops@.len() == base + 2 + j,
                ops@.take(base) == detach_prefix,
                op_is_permission(ops@[base], node.ty, node.major, node.minor, 7),
                op_is_mknod(ops@[base + 1], node.path@, node.ty, node.major, node.minor),
                forall|t: int|
                    0 <= t < j ==> op_is_symlink(
                        #[trigger] ops@[base + 2 + t],
                        node.path@,
                        links_view[t],
                    ),
        {
            ops.push(DeviceOp::Symlink { source: node.path.clone(), link: links[j].clone() });
            proof {
                assert(ops@.take(base) =~= detach_prefix);
                assert(ops@[base + 2 + j] matches DeviceOp::Symlink { source, link } && link@
                    == links_view[j as int]);
            }
        }
        proof {
            assert(ops@.take(base) =~= detach_prefix);
            assert(ops@.skip(base) =~= ops@.subrange(base, ops@.len() as int));
            assert(ops@.skip(base)[0] == ops@[base]);
            assert(ops@.skip(base)[1] == ops@[base + 1]);
            assert forall|t: int| 0 <= t < links_view.len() implies op_is_symlink(
                #[trigger] ops@.skip(base)[2 + t],
                node.path@,
                links_view[t],
            ) by {
                assert(ops@.skip(base)[2 + t] == ops@[base + 2 + t]);
            }
        }

        // Record the attachment.
        let key = device.syspath().clone();
        let att_out = AttachedDevice { device, symlinks: links };
        let att_store = att_out.duplicate();
        let ghost pre_push = self.devices@;
        self.devices.push((key, att_store));
        proof {
            Self::lemma_live_characterisation(pre_push);
            assert forall|a: int| 0 <= a < pre_push.len() implies (#[trigger] pre_push[a]).0@
                != k by {
                if pre_push[a].0@ == k {
                    assert(live_map(pre_push).contains_key(k));
                }
            }
            assert(self.devices@.drop_last() =~= pre_push);
            Self::lemma_live_characterisation(self.devices@);
        }
        (ops, Some(att_out))
    }

    /// The devnode record of `device`, duplicated out, if it has one.
    fn node_of(&self, device: &Device) -> (r: Option<DevNode>)
        ensures
            match r {
                Some(node) => device.spec_devnode() matches Some(n)
                    && crate::device::devnode_view(node) == crate::device::devnode_view(n),
                None => device.spec_devnode() is None,
            },
    {
        match device.devnode() {
            Some(n) => Some(
                DevNode { path: n.path.clone(), ty: n.ty, major: n.major, minor: n.minor },
            ),
            None => None,
        }
    }

    /// Digest a `Remove`: only a live syspath yields work; the operations
    /// revoke access, remove the node and the recorded symlinks, in that
    /// order, and the attachment leaves the live set.
    pub fn process_remove(&mut self, device: &Device) -> (r: (Vec<DeviceOp>, Option<AttachedDevice>))
        requires
            old(self).wf(),
        ensures
            final(self).wf(),
            final(self).spec_rules() == old(self).spec_rules(),
            ({
                let k = device.spec_syspath();
                if old(self).spec_live().contains_key(k) {
                    let att = old(self).spec_live()[k];
                    let node = att.device.spec_devnode()->Some_0;
                    &&& att.device.spec_devnode() is Some
                    &&& detach_ops_ok(
                        r.0@,
                        node.path@,
                        node.ty,
                        node.major,
                        node.minor,
                        att.symlinks.deep_view(),
                    )
                    &&& r.1 matches Some(out) && out == att
                    &&& final(self).spec_live() == old(self).spec_live().remove(k)
                } else {
                    &&& r.0@.len() == 0
                    &&& r.1 is None
                    &&& final(self).spec_live() == old(self).spec_live()
                }
            }),
    {
        proof {
            Self::lemma_live_characterisation(self.devices@);
        }
        let i = match self.find_live(device.syspath().as_str()) {
            Some(i) => i,
            None => {
                return (Vec::new(), None);
            },
        };
        let ghost old_devices = self.devices@;
        let ghost k = device.spec_syspath();
        let (_, att) = self.devices.swap_remove(i);
        proof {
            let new = self.devices@;
            assert forall|a: int, b: int| 0 <= a < b < new.len() implies (#[trigger] new[a]).0@
                != (#[trigger] new[b]).0@ by {
                Self::lemma_swap_remove_entry(old_devices, i as int, a);
                Self::lemma_swap_remove_entry(old_devices, i as int, b);
            }
            assert forall|a: int| 0 <= a < new.len() implies (#[trigger] new[a]).0@
                == new[a].1.device.spec_syspath() && new[a].1.device.spec_devnode() is Some by {
                Self::lemma_swap_remove_entry(old_devices, i as int, a);
            }
            Self::lemma_live_characterisation(new);
            assert forall|kk: Seq<char>| #[trigger]
                live_map(new).contains_key(kk) implies live_map(old_devices).remove(
                k,
            ).contains_key(kk) && live_map(new)[kk] == live_map(old_devices).remove(k)[kk] by {
                let a = choose|a: int| 0 <= a < new.len() && (#[trigger] new[a]).0@ == kk;
                Self::lemma_swap_remove_entry(old_devices, i as int, a);
                let b = if a == i { old_devices.len() - 1 } else { a };
                assert(old_devices[b].0@ == kk && old_devices[b].1 == new[a].1);
                assert(kk != k);
            }
            assert forall|kk: Seq<char>| #[trigger]
                live_map(old_devices).remove(k).contains_key(kk) implies live_map(
                new,
            ).contains_key(kk) by {
                let b = choose|b: int|
                    0 <= b < old_devices.len() && (#[trigger] old_devices[b]).0@ == kk;
                let a = if b == old_devices.len() - 1 { i as int } else { b };
                assert(b != i);
                Self::lemma_swap_remove_entry(old_devices, i as int, a);
                assert(new[a].0@ == kk);
            }
            assert_maps_equal!(live_map(new), live_map(old_devices).remove(k));
            assert(live_map(old_devices)[old_devices[i as int].0@] == old_devices[i as int].1);
        }
        // Build the reverse operations from the recorded attachment.
        let node = match att.device.devnode() {
            Some(n) => n,
            None => {
                // Unreachable: the invariant gives every attachment a node.
                proof {
                    assert(false);
                }
                return (Vec::new(), None);
            },
        };
        let mut ops: Vec<DeviceOp> = Vec::new();
        ops.push(
            DeviceOp::Permission {
                ty: node.ty,
                major: node.major,
                minor: node.minor,
                access: Access::empty(),
            },
        );
        ops.push(DeviceOp::Rm { path: node.path.clone() });
        let ln = att.symlinks.len();
        for j in 0..ln
            invariant
                ln == att.symlinks@.len(),
                ops@.len() == 2 + j,
                op_is_permission(ops@[0], node.ty, node.major, node.minor, 0),
                op_is_rm(ops@[1], node.path@),
                forall|t: int|
                    0 <= t < j ==> op_is_rm(#[trigger] ops@[2 + t], att.symlinks.deep_view()[t]),
        {
            ops.push(DeviceOp::Rm { path: att.symlinks[j].clone() });
            proof {
                assert(ops@[2 + j] matches DeviceOp::Rm { path } && path@
                    == att.symlinks.deep_view()[j as int]);
            }
        }
        (ops, Some(att))
    }

    proof fn lemma_swap_remove_entry(s: Seq<(String, AttachedDevice)>, i: int, a: int)
        requires
            0 <= i < s.len(),
            0 <= a < s.len() - 1,
        ensures
            s.update(i, s.last()).drop_last()[a] == if a == i {
                s.last()
            } else {
                s[a]
            },
    {
    }
}

/// Law: an `Add` followed by a `Remove` of the same syspath leaves the live
/// set without an entry for it; the filter map, after the granted rule is
/// cleared again, holds no rule for its key either.
pub proof fn lemma_add_remove_round_trip(
    live: Map<Seq<char>, AttachedDevice>,
    filter: Map<(u32, u32, u32), u32>,
    syspath: Seq<char>,
    att: AttachedDevice,
    key: (u32, u32, u32),
    mask: u32,
)
    ensures
        !live.insert(syspath, att).remove(syspath).contains_key(syspath),
        !filter.insert(key, mask).remove(key).contains_key(key),
{
}

} // verus!
