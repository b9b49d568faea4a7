//! The device monitor's bookkeeping: an initial snapshot of devices under
//! the root syspath, then live add/remove events filtered against it. Every
//! device seen so far is cached by syspath — devnode and numbers vanish
//! from the kernel on removal, so a removal hands back the cached record —
//! and duplicate additions for a known syspath are suppressed.

use vstd::prelude::*;
use vstd::map::*;
use vstd::set::*;

use crate::device::Device;
use crate::device::same_device;

verus! {

/// One event of the unified stream.
#[derive(Debug, Clone)]
pub enum DeviceEvent {
    Add(Device),
    Remove(Device),
}

/// Whether `path` equals `root` or lies below it (next character a `/`).
pub open spec fn syspath_under(path: Seq<char>, root: Seq<char>) -> bool {
    path.len() >= root.len() && path.take(root.len() as int) == root && (path.len() == root.len()
        || path[root.len() as int] == '/')
}

/// Whether `path` equals `root` or lies below it.
pub fn check_syspath_under(path: &str, root: &str) -> (r: bool)
    ensures
        r == syspath_under(path@, root@),
{
    let pn = path.unicode_len();
    let rn = root.unicode_len();
    if pn < rn {
        return false;
    }
    for i in 0..rn
        invariant
            rn <= pn == path@.len() && rn == root@.len(),
            forall|j: int| 0 <= j < i ==> path@[j] == root@[j],
    {
        if path.get_char(i) != root.get_char(i) {
            proof {
                assert(path@.take(rn as int)[i as int] != root@[i as int]);
            }
            return false;
        }
    }
    proof {
        assert(path@.take(rn as int) =~= root@);
    }
    if pn == rn {
        return true;
    }
    path.get_char(rn) == '/'
}

/// The map a sequence of `(syspath, device)` entries denotes.
pub open spec fn seen_map(s: Seq<(String, Device)>) -> Map<Seq<char>, Device>
    decreases s.len(),
{
    if s.len() == 0 {
        Map::empty()
    } else {
        seen_map(s.drop_last()).insert(s.last().0@, s.last().1)
    }
}

/// The snapshot a scan yields: of the scanned devices, those under `root`,
/// first sighting of each syspath only, scan order kept. `taken` holds the
/// syspaths already claimed.
pub open spec fn snapshot_filter(devs: Seq<Device>, root: Seq<char>, taken: Set<Seq<char>>) -> Seq<Device>
    decreases devs.len(),
{
    if devs.len() == 0 {
        Seq::empty()
    } else {
        let d = devs[0];
        if syspath_under(d.spec_syspath(), root) && !taken.contains(d.spec_syspath()) {
            seq![d] + snapshot_filter(devs.drop_first(), root, taken.insert(d.spec_syspath()))
        } else {
            snapshot_filter(devs.drop_first(), root, taken)
        }
    }
}

/// Law: the snapshot holds exactly one entry per distinct syspath under the
/// root that the scan reported, and nothing else: its entries are under the
/// root, pairwise distinct, not among the already-claimed syspaths, and
/// every scanned under-root syspath not already claimed appears.
pub proof fn lemma_snapshot_filter_properties(devs: Seq<Device>, root: Seq<char>, taken: Set<Seq<char>>)
    ensures
        forall|i: int|
            0 <= i < snapshot_filter(devs, root, taken).len() ==> syspath_under(
                (#[trigger] snapshot_filter(devs, root, taken)[i]).spec_syspath(),
                root,
            ) && !taken.contains(snapshot_filter(devs, root, taken)[i].spec_syspath()),
        forall|i: int, j: int|
            0 <= i < j < snapshot_filter(devs, root, taken).len() ==> snapshot_filter(
                devs,
                root,
                taken,
            )[i].spec_syspath() != snapshot_filter(devs, root, taken)[j].spec_syspath(),
        forall|i: int|
            0 <= i < devs.len() && syspath_under((#[trigger] devs[i]).spec_syspath(), root)
                && !taken.contains(devs[i].spec_syspath()) ==> exists|j: int|
                0 <= j < snapshot_filter(devs, root, taken).len() && (#[trigger] snapshot_filter(
                    devs,
                    root,
                    taken,
                )[j]).spec_syspath() == devs[i].spec_syspath(),
    decreases devs.len(),
{
    if devs.len() > 0 {
        let d = devs[0];
        let rest = devs.drop_first();
        let out = snapshot_filter(devs, root, taken);
        if syspath_under(d.spec_syspath(), root) && !taken.contains(d.spec_syspath()) {
            let taken1 = taken.insert(d.spec_syspath());
            lemma_snapshot_filter_properties(rest, root, taken1);
            let sub = snapshot_filter(rest, root, taken1);
            assert(out == seq![d] + sub);
            assert(out[0] == d);
            assert forall|i: int|
                0 <= i < devs.len() && syspath_under((#[trigger] devs[i]).spec_syspath(), root)
                    && !taken.contains(devs[i].spec_syspath()) implies exists|j: int|
                0 <= j < out.len() && (#[trigger] out[j]).spec_syspath()
                    == devs[i].spec_syspath() by {
                if devs[i].spec_syspath() == d.spec_syspath() {
                    assert(out[0].spec_syspath() == devs[i].spec_syspath());
                } else {
                    assert(rest[i - 1] == devs[i]);
                    let j = choose|j: int|
                        0 <= j < sub.len() && (#[trigger] sub[j]).spec_syspath()
                            == devs[i].spec_syspath();
                    assert(out[j + 1].spec_syspath() == devs[i].spec_syspath());
                }
            }
        } else {
            lemma_snapshot_filter_properties(rest, root, taken);
            let sub = snapshot_filter(rest, root, taken);
            assert(out == sub);
            assert forall|i: int|
                0 <= i < devs.len() && syspath_under((#[trigger] devs[i]).spec_syspath(), root)
                    && !taken.contains(devs[i].spec_syspath()) implies exists|j: int|
                0 <= j < out.len() && (#[trigger] out[j]).spec_syspath()
                    == devs[i].spec_syspath() by {
                assert(i != 0);
                assert(rest[i - 1] == devs[i]);
            }
        }
    }
}

/// The monitor's bookkeeping: the root of the watched sub-tree, the cached
/// devices by syspath, and the snapshot still to be handed out.
pub struct DeviceMonitor {
    root: String,
    seen: Vec<(String, Device)>,
    enumerated: Vec<Device>,
}

impl DeviceMonitor {
    /// The root of the watched sub-tree.
    pub closed spec fn spec_root(self) -> Seq<char> {
        self.root@
    }

    /// The cached devices, by syspath.
    pub closed spec fn spec_seen(self) -> Map<Seq<char>, Device> {
        seen_map(self.seen@)
    }

    /// The snapshot entries not yet handed out.
    pub closed spec fn spec_enumerated(self) -> Seq<Device> {
        self.enumerated@
    }

    /// Internal invariant: cached keys are distinct, each entry is keyed by
    /// its device's syspath, and the pending snapshot entries are cached.
    pub closed spec fn wf(self) -> bool {
        &&& forall|i: int, j: int|
            0 <= i < j < self.seen@.len() ==> (#[trigger] self.seen@[i]).0@ != (
            #[trigger] self.seen@[j]).0@
        &&& forall|i: int|
            0 <= i < self.seen@.len() ==> (#[trigger] self.seen@[i]).0@
                == self.seen@[i].1.spec_syspath()
        &&& forall|i: int|
            0 <= i < self.enumerated@.len() ==> seen_map(self.seen@).contains_key(
                (#[trigger] self.enumerated@[i]).spec_syspath(),
            )
    }

    proof fn lemma_seen_characterisation(s: Seq<(String, Device)>)
        requires
            forall|i: int, j: int| 0 <= i < j < s.len() ==> (#[trigger] s[i]).0@ != (#[trigger] s[j]).0@,
        ensures
            forall|k: Seq<char>|
                #[trigger] seen_map(s).contains_key(k) <==> exists|i: int|
                    0 <= i < s.len() && (#[trigger] s[i]).0@ == k,
            forall|i: int| 0 <= i < s.len() ==> seen_map(s)[#[trigger] s[i].0@] == s[i].1,
        decreases s.len(),
    {
        if s.len() > 0 {
            let prefix = s.drop_last();
            Self::lemma_seen_characterisation(prefix);
            assert forall|i: int| 0 <= i < s.len() implies seen_map(s)[#[trigger] s[i].0@]
                == s[i].1 by {
                if i < s.len() - 1 {
                    assert(s[i] == prefix[i]);
                    assert(s[i].0@ != s.last().0@);
                }
            }
            assert forall|k: Seq<char>| #[trigger]
                seen_map(s).contains_key(k) implies exists|i: int|
                0 <= i < s.len() && (#[trigger] s[i]).0@ == k by {
                assert(seen_map(s) == seen_map(prefix).insert(s.last().0@, s.last().1));
                if k == s.last().0@ {
                    let i = s.len() - 1;
                    assert(0 <= i < s.len() && s[i].0@ == k);
                } else {
                    assert(seen_map(prefix).contains_key(k));
                    let i = choose|i: int| 0 <= i < prefix.len() && (#[trigger] prefix[i]).0@ == k;
                    assert(prefix[i] == s[i]);
                    assert(0 <= i < s.len() && s[i].0@ == k);
                }
            }
            assert forall|k: Seq<char>| (exists|i: int|
                0 <= i < s.len() && (#[trigger] s[i]).0@ == k) implies seen_map(s).contains_key(
                k,
            ) by {
                let i = choose|i: int| 0 <= i < s.len() && (#[trigger] s[i]).0@ == k;
                if i < s.len() - 1 {
                    assert(prefix[i].0@ == k);
                }
            }
        }
    }

    fn find_seen(&self, key: &str) -> (r: Option<usize>)
        requires
            self.wf(),
        ensures
            match r {
                Some(i) => i < self.seen@.len() && self.seen@[i as int].0@ == key@,
                None => !self.spec_seen().contains_key(key@),
            },
    {
        proof {
            Self::lemma_seen_characterisation(self.seen@);
        }
        let n = self.seen.len();
        for i in 0..n
            invariant
                n == self.seen@.len(),
                forall|j: int| 0 <= j < i ==> (#[trigger] self.seen@[j]).0@ != key@,
        {
            if crate::device::str_eq(self.seen[i].0.as_str(), key) {
                return Some(i);
            }
        }
        None
    }

    /// Build the monitor from the root and a scan of the whole udev
    /// database: the snapshot keeps, in scan order, the first sighting of
    /// each syspath under the root, and every snapshot entry is cached.
    pub fn new(root: String, scanned: &Vec<Device>) -> (r: DeviceMonitor)
        ensures
            r.wf(),
            r.spec_root() == root@,
            ({
                let snap = snapshot_filter(scanned@, root@, Set::empty());
                &&& r.spec_enumerated().len() == snap.len()
                &&& forall|j: int|
                    0 <= j < snap.len() ==> same_device(#[trigger] r.spec_enumerated()[j], snap[j])
            }),
    {
        let mut monitor = DeviceMonitor { root, seen: Vec::new(), enumerated: Vec::new() };
        let n = scanned.len();
        let ghost root_view = monitor.root@;
        let ghost full = snapshot_filter(scanned@, root_view, Set::empty());
        proof {
            assert(scanned@.skip(0) =~= scanned@);
            Self::lemma_seen_characterisation(monitor.seen@);
            assert(seen_map(monitor.seen@).dom() =~= Set::<Seq<char>>::empty());
            assert(full.take(0) =~= Seq::<Device>::empty());
        }
        let mut i: usize = 0;
        while i < n
            invariant
                n == scanned@.len(),
                i <= n,
                monitor.root@ == root_view,
                monitor.wf(),
                full == snapshot_filter(scanned@, root_view, Set::empty()),
                monitor.enumerated@.len() <= full.len(),
                full == full.take(monitor.enumerated@.len() as int) + snapshot_filter(
                    scanned@.skip(i as int),
                    root_view,
                    seen_map(monitor.seen@).dom(),
                ),
                forall|j: int|
                    0 <= j < monitor.enumerated@.len() ==> same_device(
                        #[trigger] monitor.enumerated@[j],
                        full[j],
                    ),
            decreases n - i,
        {
            let ghost rest = scanned@.skip(i as int);
            let ghost taken = seen_map(monitor.seen@).dom();
            let ghost e_len = monitor.enumerated@.len() as int;
            proof {
                assert(rest[0] == scanned@[i as int]);
                assert(rest.drop_first() =~= scanned@.skip(i + 1));
            }
            let d = &scanned[i];
            let under = check_syspath_under(d.syspath().as_str(), monitor.root.as_str());
            if under {
                match monitor.find_seen(d.syspath().as_str()) {
                    Some(_) => {
                        proof {
                            Self::lemma_seen_characterisation(monitor.seen@);
                            assert(taken.contains(d.spec_syspath()));
                        }
                    },
                    None => {
                        let ghost old_seen = monitor.seen@;
                        let key = d.syspath().clone();
                        let dup_seen = d.duplicate();
                        let dup_enum = d.duplicate();
                        monitor.seen.push((key, dup_seen));
                        monitor.enumerated.push(dup_enum);
                        proof {
                            Self::lemma_seen_characterisation(old_seen);
                            assert forall|a: int| 0 <= a < old_seen.len() implies (
                            #[trigger] old_seen[a]).0@ != d.spec_syspath() by {
                                if old_seen[a].0@ == d.spec_syspath() {
                                    assert(seen_map(old_seen).contains_key(d.spec_syspath()));
                                }
                            }
                            assert(monitor.seen@.drop_last() =~= old_seen);
                            assert(seen_map(monitor.seen@) == seen_map(old_seen).insert(
                                monitor.seen@.last().0@,
                                monitor.seen@.last().1,
                            ));
                            assert(monitor.seen@.last().0@ == d.spec_syspath());
                            assert(seen_map(monitor.seen@).dom() =~= taken.insert(
                                d.spec_syspath(),
                            ));
                            Self::lemma_seen_characterisation(monitor.seen@);
                            assert(snapshot_filter(rest, root_view, taken) == seq![*d]
                                + snapshot_filter(
                                rest.drop_first(),
                                root_view,
                                taken.insert(d.spec_syspath()),
                            ));
                            assert(full[e_len] == *d) by {
                                assert(full == full.take(e_len) + (seq![*d] + snapshot_filter(
                                    rest.drop_first(),
                                    root_view,
                                    taken.insert(d.spec_syspath()),
                                )));
                            }
                            assert(monitor.enumerated@.len() as int == e_len + 1);
                            assert(full.take(e_len + 1) =~= full.take(e_len).push(*d));
                            assert(full =~= full.take(e_len + 1) + snapshot_filter(
                                rest.drop_first(),
                                root_view,
                                taken.insert(d.spec_syspath()),
                            ));
                        }
                    },
                }
            }
            i = i + 1;
        }
        proof {
            assert(scanned@.skip(n as int) =~= Seq::<Device>::empty());
            assert(full =~= full.take(monitor.enumerated@.len() as int));
        }
        monitor
    }

    /// Hand out the next snapshot event, if any is left: an `Add` of the
    /// front snapshot entry.
    pub fn pop_enumerated(&mut self) -> (r: Option<DeviceEvent>)
        requires
            old(self).wf(),
        ensures
            final(self).wf(),
            final(self).spec_root() == old(self).spec_root(),
            final(self).spec_seen() == old(self).spec_seen(),
            (match r {
                Some(ev) => {
                    &&& old(self).spec_enumerated().len() > 0
                    &&& ev matches DeviceEvent::Add(d) && d == old(self).spec_enumerated()[0]
                    &&& final(self).spec_enumerated() == old(self).spec_enumerated().drop_first()
                },
                None => {
                    &&& old(self).spec_enumerated().len() == 0
                    &&& final(self).spec_enumerated() == old(self).spec_enumerated()
                },
            }),
    {
        if self.enumerated.len() == 0 {
            return None;
        }
        let d = self.enumerated.remove(0);
        proof {
            assert(self.enumerated@ =~= old(self).enumerated@.drop_first());
        }
        Some(DeviceEvent::Add(d))
    }

    /// Digest a live `add` report. A device outside the watched sub-tree,
    /// or one whose syspath is already cached, is suppressed; otherwise the
    /// device is cached and the `Add` handed on.
    pub fn process_add(&mut self, device: Device) -> (r: Option<DeviceEvent>)
        requires
            old(self).wf(),
            old(self).spec_enumerated().len() == 0,
        ensures
            final(self).wf(),
            final(self).spec_root() == old(self).spec_root(),
            final(self).spec_enumerated() == old(self).spec_enumerated(),
            ({
                let k = device.spec_syspath();
                if syspath_under(k, old(self).spec_root()) && !old(self).spec_seen().contains_key(
                    k,
                ) {
                    &&& r matches Some(ev)
                    &&& ev matches DeviceEvent::Add(d) && same_device(d, device)
                    &&& final(self).spec_seen() == old(self).spec_seen().insert(k, device)
                } else {
                    &&& r is None
                    &&& final(self).spec_seen() == old(self).spec_seen()
                }
            }),
    {
        let under = check_syspath_under(device.syspath().as_str(), self.root.as_str());
        if !under {
            return None;
        }
        match self.find_seen(device.syspath().as_str()) {
            Some(_) => {
                proof {
                    Self::lemma_seen_characterisation(self.seen@);
                }
                None
            },
            None => {
                let ghost old_seen = self.seen@;
                let ghost k = device.spec_syspath();
                let key = device.syspath().clone();
                let dup = device.duplicate();
                self.seen.push((key, device));
                proof {
                    Self::lemma_seen_characterisation(old_seen);
                    assert forall|a: int| 0 <= a < old_seen.len() implies (
                    #[trigger] old_seen[a]).0@ != k by {
                        if old_seen[a].0@ == k {
                            assert(seen_map(old_seen).contains_key(k));
                        }
                    }
                    assert(self.seen@.drop_last() =~= old_seen);
                    Self::lemma_seen_characterisation(self.seen@);
                }
                Some(DeviceEvent::Add(dup))
            },
        }
    }

    /// Digest a live `remove` report. Only a cached syspath yields a
    /// `Remove`, and it carries the cached device record, not the reported
    /// one; the syspath leaves the cache.
    pub fn process_remove(&mut self, device: &Device) -> (r: Option<DeviceEvent>)
        requires
            old(self).wf(),
            old(self).spec_enumerated().len() == 0,
        ensures
            final(self).wf(),
            final(self).spec_root() == old(self).spec_root(),
            final(self).spec_enumerated() == old(self).spec_enumerated(),
            ({
                let k = device.spec_syspath();
                if old(self).spec_seen().contains_key(k) {
                    &&& r matches Some(ev)
                    &&& ev matches DeviceEvent::Remove(d) && d == old(self).spec_seen()[k]
                    &&& final(self).spec_seen() == old(self).spec_seen().remove(k)
                } else {
                    &&& r is None
                    &&& final(self).spec_seen() == old(self).spec_seen()
                }
            }),
    {
        proof {
            Self::lemma_seen_characterisation(self.seen@);
        }
        match self.find_seen(device.syspath().as_str()) {
            Some(i) => {
                let ghost old_seen = self.seen@;
                let ghost k = device.spec_syspath();
                let (_, cached) = self.seen.swap_remove(i);
                proof {
                    let new = self.seen@;
                    assert forall|a: int, b: int| 0 <= a < b < new.len() implies (
                    #[trigger] new[a]).0@ != (#[trigger] new[b]).0@ by {
                        Self::lemma_swap_remove_entry(old_seen, i as int, a);
                        Self::lemma_swap_remove_entry(old_seen, i as int, b);
                    }
                    assert forall|a: int| 0 <= a < new.len() implies (#[trigger] new[a]).0@
                        == new[a].1.spec_syspath() by {
                        Self::lemma_swap_remove_entry(old_seen, i as int, a);
                    }
                    Self::lemma_seen_characterisation(new);
                    assert forall|kk: Seq<char>| #[trigger]
                        seen_map(new).contains_key(kk) implies seen_map(old_seen).remove(
                        k,
                    ).contains_key(kk) && seen_map(new)[kk] == seen_map(old_seen).remove(k)[kk] by {
                        let a = choose|a: int| 0 <= a < new.len() && (#[trigger] new[a]).0@ == kk;
                        Self::lemma_swap_remove_entry(old_seen, i as int, a);
                        let b = if a == i { old_seen.len() - 1 } else { a };
                        assert(old_seen[b].0@ == kk && old_seen[b].1 == new[a].1);
                        assert(kk != k);
                    }
                    assert forall|kk: Seq<char>| #[trigger]
                        seen_map(old_seen).remove(k).contains_key(kk) implies seen_map(
                        new,
                    ).contains_key(kk) by {
                        let b = choose|b: int|
                            0 <= b < old_seen.len() && (#[trigger] old_seen[b]).0@ == kk;
                        let a = if b == old_seen.len() - 1 { i as int } else { b };
                        assert(b != i);
                        Self::lemma_swap_remove_entry(old_seen, i as int, a);
                        assert(new[a].0@ == kk);
                    }
                    assert_maps_equal!(seen_map(new), seen_map(old_seen).remove(k));
                }
                Some(DeviceEvent::Remove(cached))
            },
            None => None,
        }
    }

    proof fn lemma_swap_remove_entry(s: Seq<(String, Device)>, i: int, a: int)
        requires
            0 <= i < s.len(),
            0 <= a < s.len() - 1,
        ensures
            s.update(i, s.last()).drop_last()[a] == if a == i {
                s.last()
            } else {
                s[a]
            },
    {
    }
}

} // verus!
