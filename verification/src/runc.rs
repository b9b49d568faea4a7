//! What the supervisor takes from the OCI runtime's world: the runtime's
//! command line shape, the bundle configuration and runtime state it
//! consumes, the hotplug annotations, the cgroup bookkeeping strings, and
//! the `cgroup.events` contents.

use vstd::prelude::*;
use vstd::string::StringExecFns;

use crate::idmap::first_break;
use crate::idmap::spec_lines;
use crate::idmap::str_chars;
use crate::idmap::strip_line;
use crate::parse::DeviceRef;
use crate::parse::SelectorParseError;
use crate::parse::parsed_selector;
use crate::parse::selector_ok;
use crate::parse::spec_split;
use crate::symlink::Symlink;
use crate::symlink::parsed_symlink;
use crate::symlink::symlink_ok;

verus! {

/// The log format the runtime was asked for.
#[derive(Debug, Clone, Copy, PartialEq, Eq, Structural)]
pub enum LogFormat {
    Json,
    Text,
}

/// The runtime's global options.
#[derive(Debug)]
pub struct GlobalOptions {
    pub debug: bool,
    pub log: Option<String>,
    pub log_format: LogFormat,
    pub root: String,
    pub systemd_cgroup: bool,
}

/// The options of the intercepted `create` verb.
#[derive(Debug)]
pub struct CreateOptions {
    pub bundle: String,
    pub console_socket: Option<String>,
    pub pid_file: Option<String>,
    pub container_id: String,
}

/// The runtime verbs the wrapper distinguishes: `create` is intercepted,
/// `run` is refused, everything else is forwarded verbatim.
#[derive(Debug)]
pub enum Subcommand {
    Create(CreateOptions),
    Run { args: Vec<String> },
    Other(Vec<String>),
}

/// One parsed runtime command line.
#[derive(Debug)]
pub struct Command {
    pub global: GlobalOptions,
    pub command: Subcommand,
}

/// The container's primary user.
#[derive(Debug, Clone, Copy, PartialEq, Eq, Structural)]
pub struct User {
    pub uid: u32,
    pub gid: u32,
}

/// The process section of the bundle configuration.
#[derive(Debug, Clone, Copy, PartialEq, Eq, Structural)]
pub struct Process {
    pub user: User,
}

/// What the supervisor reads from the bundle's configuration: the primary
/// user and the annotations.
#[derive(Debug)]
pub struct Config {
    pub process: Process,
    pub annotations: Vec<(String, String)>,
}

impl Config {
    /// The value of the first annotation named `key`, if any.
    pub fn annotation(&self, key: &str) -> (r: Option<&String>)
        ensures
            (match r {
                Some(v) => Some(v@),
                None => None,
            }) == crate::device::prop_lookup(self.annotations.deep_view(), key@),
    {
        let n = self.annotations.len();
        proof {
            assert(self.annotations.deep_view().skip(0) == self.annotations.deep_view());
        }
        for i in 0..n
            invariant
                n == self.annotations@.len(),
                crate::device::prop_lookup(self.annotations.deep_view(), key@)
                    == crate::device::prop_lookup(
                    self.annotations.deep_view().skip(i as int),
                    key@,
                ),
        {
            let ghost rest = self.annotations.deep_view().skip(i as int);
            proof {
                assert(rest[0] == self.annotations.deep_view()[i as int]);
                assert(self.annotations.deep_view()[i as int] == (
                    self.annotations@[i as int].0@,
                    self.annotations@[i as int].1@,
                ));
                assert(rest.drop_first() =~= self.annotations.deep_view().skip(i + 1));
            }
            if crate::device::str_eq(self.annotations[i].0.as_str(), key) {
                return Some(&self.annotations[i].1);
            }
        }
        proof {
            assert(self.annotations.deep_view().skip(n as int) =~= Seq::<(
                Seq<char>,
                Seq<char>,
            )>::empty());
        }
        None
    }
}

/// The cgroup paths of the runtime's state file: the unified (v2) path and
/// the optional legacy `devices` (v1) path.
#[derive(Debug)]
pub struct CgroupPaths {
    pub unified: String,
    pub devices: Option<String>,
}

/// What the supervisor reads from the runtime's state file.
#[derive(Debug)]
pub struct State {
    pub init_process_pid: u32,
    pub cgroup_paths: CgroupPaths,
}

/// Parse a comma-separated list of device selectors.
pub fn parse_device_annotation(s: &str) -> (r: Result<Vec<DeviceRef>, SelectorParseError>)
    ensures
        ({
            let pieces = spec_split(s@, ',');
            &&& (r is Ok) == (forall|i: int| 0 <= i < pieces.len() ==> selector_ok(#[trigger] pieces[i]))
            &&& r matches Ok(v) ==> v@.len() == pieces.len() && (forall|i: int|
                0 <= i < pieces.len() ==> parsed_selector(#[trigger] v@[i], pieces[i]))
        }),
{
    let chars = str_chars(s);
    let pieces = crate::parse::split_chars(&chars, 0, ',');
    proof {
        assert(chars@.skip(0) =~= chars@);
        assert(pieces.deep_view() == spec_split(s@, ','));
        assert forall|t: int| 0 <= t < pieces@.len() implies (#[trigger] pieces@[t]@)
            == spec_split(s@, ',')[t] by {
            assert(pieces.deep_view()[t] == pieces@[t]@);
        }
    }
    let mut out: Vec<DeviceRef> = Vec::new();
    let n = pieces.len();
    for i in 0..n
        invariant
            n == pieces@.len() && n == spec_split(s@, ',').len(),
            forall|t: int| 0 <= t < pieces@.len() ==> (#[trigger] pieces@[t]@) == spec_split(s@, ',')[t],
            out@.len() == i,
            forall|t: int| 0 <= t < i ==> selector_ok(#[trigger] spec_split(s@, ',')[t]),
            forall|t: int| 0 <= t < i ==> parsed_selector(#[trigger] out@[t], spec_split(s@, ',')[t]),
    {
        match DeviceRef::from_str(pieces[i].as_str()) {
            Ok(d) => {
                out.push(d);
            },
            Err(e) => {
                proof {
                    assert(!selector_ok(spec_split(s@, ',')[i as int]));
                    assert(!(forall|t: int|
                        0 <= t < spec_split(s@, ',').len() ==> selector_ok(#[trigger] spec_split(s@, ',')[t])));
                }
                return Err(e);
            },
        }
    }
    proof {
        assert(forall|t: int| 0 <= t < spec_split(s@, ',').len() ==> selector_ok(#[trigger] spec_split(s@, ',')[t]));
    }
    Ok(out)
}

/// Parse a comma-separated list of symlink rules.
pub fn parse_symlink_annotation(s: &str) -> (r: Result<Vec<Symlink>, SelectorParseError>)
    ensures
        ({
            let pieces = spec_split(s@, ',');
            &&& (r is Ok) == (forall|i: int| 0 <= i < pieces.len() ==> symlink_ok(#[trigger] pieces[i]))
            &&& r matches Ok(v) ==> v@.len() == pieces.len() && (forall|i: int|
                0 <= i < pieces.len() ==> parsed_symlink(#[trigger] v@[i], pieces[i]))
        }),
{
    let chars = str_chars(s);
    let pieces = crate::parse::split_chars(&chars, 0, ',');
    proof {
        assert(chars@.skip(0) =~= chars@);
        assert(pieces.deep_view() == spec_split(s@, ','));
        assert forall|t: int| 0 <= t < pieces@.len() implies (#[trigger] pieces@[t]@)
            == spec_split(s@, ',')[t] by {
            assert(pieces.deep_view()[t] == pieces@[t]@);
        }
    }
    let mut out: Vec<Symlink> = Vec::new();
    let n = pieces.len();
    for i in 0..n
        invariant
            n == pieces@.len() && n == spec_split(s@, ',').len(),
            forall|t: int| 0 <= t < pieces@.len() ==> (#[trigger] pieces@[t]@) == spec_split(s@, ',')[t],
            out@.len() == i,
            forall|t: int| 0 <= t < i ==> symlink_ok(#[trigger] spec_split(s@, ',')[t]),
            forall|t: int| 0 <= t < i ==> parsed_symlink(#[trigger] out@[t], spec_split(s@, ',')[t]),
    {
        match Symlink::from_str(pieces[i].as_str()) {
            Ok(rule) => {
                out.push(rule);
            },
            Err(e) => {
                proof {
                    assert(!symlink_ok(spec_split(s@, ',')[i as int]));
                    assert(!(forall|t: int|
                        0 <= t < spec_split(s@, ',').len() ==> symlink_ok(#[trigger] spec_split(s@, ',')[t])));
                }
                return Err(e);
            },
        }
    }
    proof {
        assert(forall|t: int| 0 <= t < spec_split(s@, ',').len() ==> symlink_ok(#[trigger] spec_split(s@, ',')[t]));
    }
    Ok(out)
}

/// The systemd drop-in files that re-install a device allowlist for the
/// cgroup; the supervisor deletes them so systemd cannot fight the filter.
pub fn systemd_dropin_paths(cgroup_name: &str) -> (r: (String, String))
    ensures
        r.0@ == "/run/systemd/transient/"@ + cgroup_name@ + ".d/50-DeviceAllow.conf"@,
        r.1@ == "/run/systemd/transient/"@ + cgroup_name@ + ".d/50-DevicePolicy.conf"@,
{
    let mut allow = String::from_str("/run/systemd/transient/");
    allow.append(cgroup_name);
    allow.append(".d/50-DeviceAllow.conf");
    let mut policy = String::from_str("/run/systemd/transient/");
    policy.append(cgroup_name);
    policy.append(".d/50-DevicePolicy.conf");
    (allow, policy)
}

/// `s` with every trailing `.scope` suffix removed.
pub open spec fn spec_trim_scope(s: Seq<char>) -> Seq<char>
    decreases s.len(),
{
    if s.len() >= 6 && s.skip(s.len() - 6) == seq!['.', 's', 'c', 'o', 'p', 'e'] {
        spec_trim_scope(s.take(s.len() - 6))
    } else {
        s
    }
}

/// The bpffs path the filter program is pinned at for a cgroup leaf
/// directory named `leaf`: `/sys/fs/bpf/<leaf without .scope>-device-filter`.
pub fn filter_pin_path(leaf: &str) -> (r: String)
    ensures
        r@ == "/sys/fs/bpf/"@ + spec_trim_scope(leaf@) + "-device-filter"@,
{
    let chars = str_chars(leaf);
    let mut end = chars.len();
    proof {
        assert(chars@.take(end as int) =~= chars@);
    }
    loop
        invariant
            end <= chars@.len(),
            chars@ == leaf@,
            spec_trim_scope(leaf@) == spec_trim_scope(chars@.take(end as int)),
        ensures
            spec_trim_scope(leaf@) == chars@.take(end as int),
        decreases end,
    {
        let ghost cur = chars@.take(end as int);
        if end < 6 {
            proof {
                assert(spec_trim_scope(cur) == cur);
            }
            break;
        }
        let suffix_matches = chars[end - 6] == '.' && chars[end - 5] == 's' && chars[end - 4]
            == 'c' && chars[end - 3] == 'o' && chars[end - 2] == 'p' && chars[end - 1] == 'e';
        proof {
            let tail = cur.skip(cur.len() - 6);
            assert(tail.len() == 6);
            assert(tail[0] == chars@[end - 6]);
            assert(tail[1] == chars@[end - 5]);
            assert(tail[2] == chars@[end - 4]);
            assert(tail[3] == chars@[end - 3]);
            assert(tail[4] == chars@[end - 2]);
            assert(tail[5] == chars@[end - 1]);
            if suffix_matches {
                assert(tail =~= seq!['.', 's', 'c', 'o', 'p', 'e']);
            } else {
                assert(tail != seq!['.', 's', 'c', 'o', 'p', 'e']);
            }
        }
        if !suffix_matches {
            proof {
                assert(spec_trim_scope(cur) == cur);
            }
            break;
        }
        proof {
            assert(cur.take(cur.len() - 6) =~= chars@.take(end - 6));
        }
        end = end - 6;
    }
    let mut out: Vec<char> = Vec::new();
    for i in 0..end
        invariant
            end <= chars@.len(),
            out@ == chars@.take(end as int).take(i as int),
        decreases end - i,
    {
        out.push(chars[i]);
        proof {
            assert(out@ =~= chars@.take(end as int).take(i + 1));
        }
    }
    proof {
        assert(chars@.take(end as int).take(end as int) =~= chars@.take(end as int));
    }
    let id = crate::escape::chars_to_string(&out);
    let mut r = String::from_str("/sys/fs/bpf/");
    r.append(id.as_str());
    r.append("-device-filter");
    r
}

/// The answer one line of `cgroup.events` gives: a line opening with
/// `populated ` settles the question by its last character.
pub open spec fn populated_prefix() -> Seq<char> {
    seq!['p', 'o', 'p', 'u', 'l', 'a', 't', 'e', 'd', ' ']
}

/// What the `cgroup.events` contents say: the first line opening with
/// `populated ` decides (populated exactly when the line ends in `1`);
/// without such a line the file is malformed.
pub open spec fn spec_populated(lines: Seq<Seq<char>>) -> Option<bool>
    decreases lines.len(),
{
    if lines.len() == 0 {
        None
    } else if lines[0].len() >= 10 && lines[0].take(10) == populated_prefix() {
        Some(lines[0].len() > 0 && lines[0].last() == '1')
    } else {
        spec_populated(lines.drop_first())
    }
}

/// Read the `populated` field out of `cgroup.events` contents.
pub fn parse_populated(content: &str) -> (r: Option<bool>)
    ensures
        r == spec_populated(spec_lines(content@)),
{
    let chars = str_chars(content);
    let n = chars.len();
    let mut i: usize = 0;
    proof {
        assert(chars@.skip(0) =~= chars@);
    }
    while i < n
        invariant
            n == chars@.len(),
            i <= n,
            chars@ == content@,
            spec_populated(spec_lines(content@)) == spec_populated(
                spec_lines(chars@.skip(i as int)),
            ),
        decreases n - i,
    {
        let ghost suffix = chars@.skip(i as int);
        // Find the end of the current line segment (newline included).
        let mut b = i;
        while b < n && chars[b] != '\n'
            invariant
                i <= b <= n == chars@.len(),
                forall|k: int| i <= k < b ==> chars@[k] != '\n',
            decreases n - b,
        {
            b = b + 1;
        }
        let seg_end = if b < n {
            b + 1
        } else {
            b
        };
        proof {
            assert forall|k: int| 0 <= k < b - i implies suffix[k] != '\n' by {
                assert(suffix[k] == chars@[i + k]);
            }
            if b < n {
                assert(suffix[b - i] == chars@[b as int]);
            }
            crate::idmap::lemma_first_break_bounds(suffix);
            crate::idmap::lemma_first_break_at(suffix, b - i);
            assert(first_break(suffix) == seg_end - i);
            assert(suffix.take(seg_end - i) =~= chars@.subrange(i as int, seg_end as int));
            assert(suffix.skip(seg_end - i) =~= chars@.skip(seg_end as int));
            assert(spec_lines(suffix) == seq![
                strip_line(chars@.subrange(i as int, seg_end as int)),
            ] + spec_lines(chars@.skip(seg_end as int)));
        }
        let mut line_end = b;
        if b < n && b > i && chars[b - 1] == '\r' {
            line_end = b - 1;
        }
        proof {
            let seg = chars@.subrange(i as int, seg_end as int);
            if seg_end > b {
                assert(seg.last() == '\n');
                assert(seg.drop_last() =~= chars@.subrange(i as int, b as int));
                if b > i && chars@[b - 1] == '\r' {
                    assert(chars@.subrange(i as int, b as int).last() == '\r');
                    assert(chars@.subrange(i as int, b as int).drop_last() =~= chars@.subrange(
                        i as int,
                        line_end as int,
                    ));
                }
            } else {
                assert(b == n);
                if seg.len() > 0 && seg.last() == '\n' {
                    assert(seg.last() == chars@[n - 1]);
                    assert(false);
                }
            }
            assert(strip_line(seg) == chars@.subrange(i as int, line_end as int));
            assert(spec_lines(suffix)[0] == chars@.subrange(i as int, line_end as int));
            assert(spec_lines(suffix).drop_first() =~= spec_lines(chars@.skip(seg_end as int)));
        }
        // Does this line open with `populated `?
        let ghost line = chars@.subrange(i as int, line_end as int);
        if line_end - i >= 10 {
            let p: [char; 10] = ['p', 'o', 'p', 'u', 'l', 'a', 't', 'e', 'd', ' '];
            let mut is_prefix = true;
            for k in 0..10usize
                invariant
                    i + 10 <= line_end <= n == chars@.len(),
                    p@ == populated_prefix(),
                    line == chars@.subrange(i as int, line_end as int),
                    is_prefix == (line.take(k as int) =~= populated_prefix().take(k as int)),
            {
                proof {
                    assert(line[k as int] == chars@[i + k]);
                    assert(line.take(k + 1).take(k as int) =~= line.take(k as int));
                    assert(populated_prefix().take(k + 1).take(k as int)
                        =~= populated_prefix().take(k as int));
                }
                let c_ok = chars[i + k] == p[k];
                proof {
                    if is_prefix && c_ok {
                        assert(line.take(k + 1) =~= populated_prefix().take(k + 1));
                    }
                    if !c_ok {
                        let a = line.take(k + 1);
                        let b = populated_prefix().take(k + 1);
                        assert(a[k as int] != b[k as int]);
                    }
                    if !is_prefix {
                        if line.take(k + 1) == populated_prefix().take(k + 1) {
                            assert(line.take(k + 1).take(k as int) == populated_prefix().take(
                                k + 1,
                            ).take(k as int));
                            assert(false);
                        }
                    }
                }
                is_prefix = is_prefix && c_ok;
            }
            proof {
                assert(populated_prefix().take(10) =~= populated_prefix());
                assert(line.take(10) == line.take(10int));
            }
            if is_prefix {
                let last = chars[line_end - 1];
                proof {
                    assert(line.last() == chars@[line_end - 1]);
                }
                return Some(last == '1');
            }
        } else {
            proof {
                if line.len() >= 10 {
                    assert(false);
                }
            }
        }
        i = seg_end;
    }
    proof {
        assert(chars@.skip(n as int) =~= Seq::<char>::empty());
    }
    None
}

} // verus!
