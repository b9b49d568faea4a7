//! The textual forms the supervisor is configured with: device selectors
//! (`[parent-of:]*<prefix>:<spec>`) and the helpers they share.

use vstd::prelude::*;

use crate::escape::chars_to_string;
use crate::escape::is_hex_digit;
use crate::idmap::str_chars;

verus! {

/// A selector or rule was malformed.
#[derive(Debug, Clone, Copy, PartialEq, Eq, Structural)]
pub struct SelectorParseError;

/// Whether `s` is exactly four hexadecimal digits.
pub open spec fn spec_is_hex4(s: Seq<char>) -> bool {
    s.len() == 4 && (forall|i: int| 0 <= i < s.len() ==> is_hex_digit(#[trigger] s[i]))
}

/// Whether `val` is a four-digit hexadecimal number.
pub fn is_hex4(val: &str) -> (r: bool)
    ensures
        r == spec_is_hex4(val@),
{
    let n = val.unicode_len();
    if n != 4 {
        return false;
    }
    for i in 0..n
        invariant
            n == val@.len() && n == 4,
            forall|j: int| 0 <= j < i ==> is_hex_digit(#[trigger] val@[j]),
    {
        let c = val.get_char(i);
        let code = c as u32;
        if !((48 <= code && code <= 57) || (97 <= code && code <= 102) || (65 <= code && code
            <= 70)) {
            return false;
        }
    }
    true
}

/// Whether `c` is an ASCII character.
pub open spec fn is_ascii_char(c: char) -> bool {
    (c as u32) < 128
}

/// Whether `c` is an ASCII decimal digit.
pub open spec fn is_ascii_digit_char(c: char) -> bool {
    48 <= c as u32 <= 57
}

/// Whether `c` is an ASCII letter or digit.
pub open spec fn is_alnum_char(c: char) -> bool {
    is_ascii_digit_char(c) || (65 <= c as u32 <= 90) || (97 <= c as u32 <= 122)
}

/// `c` with an ASCII upper-case letter folded to lower case.
pub open spec fn lower_char(c: char) -> char {
    if 65 <= c as u32 <= 90 {
        ((c as u32 + 32) as u8) as char
    } else {
        c
    }
}

/// `s` with every ASCII upper-case letter folded to lower case.
pub open spec fn spec_to_lower(s: Seq<char>) -> Seq<char> {
    s.map_values(|c: char| lower_char(c))
}

/// The ASCII lower-case form of an ASCII string.
pub fn to_ascii_lower(s: &str) -> (r: String)
    requires
        forall|i: int| 0 <= i < s@.len() ==> is_ascii_char(#[trigger] s@[i]),
    ensures
        r@ == spec_to_lower(s@),
{
    let n = s.unicode_len();
    let mut out: Vec<char> = Vec::new();
    for i in 0..n
        invariant
            n == s@.len(),
            forall|k: int| 0 <= k < s@.len() ==> is_ascii_char(#[trigger] s@[k]),
            out@ =~= spec_to_lower(s@.take(i as int)),
    {
        let c = s.get_char(i);
        let code = c as u32;
        let lc = if 65 <= code && code <= 90 {
            ((code + 32) as u8) as char
        } else {
            c
        };
        out.push(lc);
        proof {
            assert(out@ =~= spec_to_lower(s@.take(i + 1)));
        }
    }
    proof {
        assert(s@.take(n as int) =~= s@);
    }
    chars_to_string(&out)
}

/// Index of the first `sep` in `s`, if any.
pub open spec fn find_sep(s: Seq<char>, sep: char) -> Option<int>
    decreases s.len(),
{
    if s.len() == 0 {
        None
    } else if s[0] == sep {
        Some(0)
    } else {
        match find_sep(s.drop_first(), sep) {
            Some(i) => Some(1 + i),
            None => None,
        }
    }
}

pub(crate) proof fn lemma_find_sep_at(s: Seq<char>, sep: char, m: int)
    requires
        0 <= m <= s.len(),
        forall|k: int| 0 <= k < m ==> s[k] != sep,
        m == s.len() || s[m] == sep,
    ensures
        find_sep(s, sep) == if m == s.len() {
            Option::<int>::None
        } else {
            Some(m)
        },
    decreases s.len(),
{
    if s.len() > 0 && s[0] != sep {
        lemma_find_sep_at(s.drop_first(), sep, m - 1);
    }
}

proof fn lemma_find_sep_bounds(s: Seq<char>, sep: char)
    ensures
        find_sep(s, sep) matches Some(i) ==> 0 <= i < s.len() && s[i] == sep,
    decreases s.len(),
{
    if s.len() > 0 && s[0] != sep {
        lemma_find_sep_bounds(s.drop_first(), sep);
    }
}

/// The pieces of `s` split at every `sep`, separators removed.
pub open spec fn spec_split(s: Seq<char>, sep: char) -> Seq<Seq<char>>
    decreases s.len(),
    via spec_split_decreases
{
    match find_sep(s, sep) {
        None => seq![s],
        Some(i) => seq![s.take(i)] + spec_split(s.skip(i + 1), sep),
    }
}

#[via_fn]
proof fn spec_split_decreases(s: Seq<char>, sep: char) {
    lemma_find_sep_bounds(s, sep);
}

/// The `parent-of:` prefix of a device selector.
pub open spec fn parent_prefix() -> Seq<char> {
    seq!['p', 'a', 'r', 'e', 'n', 't', '-', 'o', 'f', ':']
}

/// How many times `parent-of:` is repeated at the front of `s`.
pub open spec fn count_parent_of(s: Seq<char>) -> int
    decreases s.len(),
{
    if s.len() >= 10 && s.take(10) == parent_prefix() {
        1 + count_parent_of(s.skip(10))
    } else {
        0
    }
}

/// What a device selector is: either a USB selector (`vid`, optional `pid`,
/// optional `serial`), a syspath, or a devnode path.
#[derive(Debug, Clone)]
pub enum DeviceKind {
    Usb { vid: String, pid: Option<String>, serial: Option<String> },
    Syspath(String),
    Devnode(String),
}

/// A reference to a device: a selector, walked up `parent_level` steps in
/// the sysfs tree.
#[derive(Debug, Clone)]
pub struct DeviceRef {
    pub parent_level: usize,
    pub kind: DeviceKind,
}

/// Whether `path` is absolute and lies under the single-component root
/// `root` (`/sys` or `/dev`): it is the root itself or continues with `/`.
pub open spec fn path_under(path: Seq<char>, root: Seq<char>) -> bool {
    path.len() >= root.len() && path.take(root.len() as int) == root && (path.len() == root.len()
        || path[root.len() as int] == '/')
}

/// What a well-formed USB selector body is: up to three `:`-separated parts
/// — a four-hex-digit vendor id, optionally a four-hex-digit product id,
/// optionally a non-empty alphanumeric serial.
pub open spec fn usb_selector_ok(parts: Seq<Seq<char>>) -> bool {
    &&& 1 <= parts.len() <= 3
    &&& spec_is_hex4(parts[0])
    &&& parts.len() >= 2 ==> spec_is_hex4(parts[1])
    &&& parts.len() == 3 ==> (parts[2].len() >= 1 && forall|i: int|
        0 <= i < parts[2].len() ==> is_alnum_char(#[trigger] parts[2][i]))
}

/// Whether `s` is a well-formed device selector: after the `parent-of:`
/// repetitions, a prefix before the first `:` that is `usb` with a
/// well-formed USB body, `syspath` with an absolute path under `/sys`, or
/// `devnode` with an absolute path under `/dev` not ending in `/`.
pub open spec fn selector_ok(s: Seq<char>) -> bool {
    let rem = s.skip(10 * count_parent_of(s));
    match find_sep(rem, ':') {
        None => false,
        Some(i) => {
            let kind = rem.take(i);
            let body = rem.skip(i + 1);
            if kind == seq!['u', 's', 'b'] {
                usb_selector_ok(spec_split(body, ':'))
            } else if kind == seq!['s', 'y', 's', 'p', 'a', 't', 'h'] {
                path_under(body, seq!['/', 's', 'y', 's'])
            } else if kind == seq!['d', 'e', 'v', 'n', 'o', 'd', 'e'] {
                path_under(body, seq!['/', 'd', 'e', 'v']) && body.last() != '/'
            } else {
                false
            }
        },
    }
}

/// What a successful parse of selector text `s` yields in `d`: the
/// `parent-of:` count, and the selector kind with its validated, normalised
/// fields.
pub open spec fn parsed_selector(d: DeviceRef, s: Seq<char>) -> bool {
    let lvl = count_parent_of(s);
    let rem = s.skip(10 * lvl);
    &&& d.parent_level == lvl
    &&& (match d.kind {
        DeviceKind::Usb { vid, pid, serial } => {
            let parts = spec_split(rem.skip(4), ':');
            &&& rem.len() >= 4
            &&& rem.take(4) == seq!['u', 's', 'b', ':']
            &&& usb_selector_ok(parts)
            &&& vid@ == spec_to_lower(parts[0])
            &&& (match pid {
                Some(p) => parts.len() >= 2 && p@ == spec_to_lower(parts[1]),
                None => parts.len() < 2,
            })
            &&& (match serial {
                Some(sn) => parts.len() == 3 && sn@ == parts[2],
                None => parts.len() < 3,
            })
        },
        DeviceKind::Syspath(path) => {
            &&& rem.len() >= 8
            &&& rem.take(8) == seq!['s', 'y', 's', 'p', 'a', 't', 'h', ':']
            &&& path@ == rem.skip(8)
            &&& path_under(path@, seq!['/', 's', 'y', 's'])
        },
        DeviceKind::Devnode(path) => {
            &&& rem.len() >= 8
            &&& rem.take(8) == seq!['d', 'e', 'v', 'n', 'o', 'd', 'e', ':']
            &&& path@ == rem.skip(8)
            &&& path_under(path@, seq!['/', 'd', 'e', 'v'])
            &&& path@.last() != '/'
        },
    })
}

/// Whether `chars[pos..ci]` holds exactly the characters of `lit`.
fn range_is_lit(chars: &Vec<char>, pos: usize, ci: usize, lit: &[char]) -> (r: bool)
    requires
        pos <= ci <= chars@.len(),
    ensures
        r == (chars@.subrange(pos as int, ci as int) == lit@),
{
    let ln = lit.len();
    if ci - pos != ln {
        proof {
            assert(chars@.subrange(pos as int, ci as int).len() != lit@.len());
        }
        return false;
    }
    for k in 0..ln
        invariant
            pos <= ci <= chars@.len(),
            ln == lit@.len() && ci - pos == ln,
            forall|t: int| 0 <= t < k ==> chars@[pos + t] == lit@[t],
    {
        if chars[pos + k] != lit[k] {
            proof {
                assert(chars@.subrange(pos as int, ci as int)[k as int] != lit@[k as int]);
            }
            return false;
        }
    }
    proof {
        assert(chars@.subrange(pos as int, ci as int) =~= lit@);
    }
    true
}

impl DeviceRef {
    /// Parse a `[parent-of:]*<prefix>:<spec>` selector. Succeeds exactly on
    /// the well-formed selectors (`selector_ok`); vendor and product ids are
    /// folded to lower case.
    #[verifier::rlimit(100)]
    pub fn from_str(s: &str) -> (r: Result<DeviceRef, SelectorParseError>)
        ensures
            (r is Ok) == selector_ok(s@),
            r matches Ok(d) ==> parsed_selector(d, s@),
    {
        let chars = str_chars(s);
        let mut pos: usize = 0;
        let n = chars.len();
        proof {
            assert(chars@.skip(0) =~= chars@);
        }
        // Strip the `parent-of:` repetitions.
        let mut level: usize = 0;
        loop
            invariant
                chars@ == s@,
                n == chars@.len(),
                pos == 10 * level,
                pos <= n,
                count_parent_of(s@) == level + count_parent_of(chars@.skip(pos as int)),
            ensures
                chars@ == s@,
                n == chars@.len(),
                pos == 10 * level,
                pos <= n,
                count_parent_of(s@) == level,
            decreases n - pos,
        {
            let ghost rem = chars@.skip(pos as int);
            if n - pos < 10 {
                proof {
                    assert(count_parent_of(rem) == 0);
                }
                break;
            }
            let p: [char; 10] = ['p', 'a', 'r', 'e', 'n', 't', '-', 'o', 'f', ':'];
            let is_prefix = range_is_lit(&chars, pos, pos + 10, p.as_slice());
            proof {
                assert(p@ =~= parent_prefix());
                assert(rem.take(10) =~= chars@.subrange(pos as int, pos + 10));
            }
            if !is_prefix {
                proof {
                    assert(count_parent_of(rem) == 0);
                }
                break;
            }
            pos = pos + 10;
            level = level + 1;
            proof {
                assert(rem.skip(10) =~= chars@.skip(pos as int));
            }
        }
        let ghost rem = chars@.skip(pos as int);

        // Find the first `:` after the prefix words.
        let mut ci = pos;
        while ci < n && chars[ci] != ':'
            invariant
                pos <= ci <= n == chars@.len(),
                forall|k: int| pos <= k < ci ==> chars@[k] != ':',
            decreases n - ci,
        {
            ci = ci + 1;
        }
        proof {
            assert forall|k: int| 0 <= k < ci - pos implies rem[k] != ':' by {
                assert(rem[k] == chars@[pos + k]);
            }
            if ci < n {
                assert(rem[ci - pos] == chars@[ci as int]);
            }
            lemma_find_sep_at(rem, ':', ci - pos);
        }
        if ci == n {
            return Err(SelectorParseError);
        }
        let ghost kind = rem.take(ci - pos);
        let ghost body = rem.skip(ci - pos + 1);
        proof {
            assert(kind =~= chars@.subrange(pos as int, ci as int));
            assert(body =~= chars@.skip(ci + 1));
        }

        let usb_lit: [char; 3] = ['u', 's', 'b'];
        let syspath_lit: [char; 7] = ['s', 'y', 's', 'p', 'a', 't', 'h'];
        let devnode_lit: [char; 7] = ['d', 'e', 'v', 'n', 'o', 'd', 'e'];
        proof {
            assert(usb_lit@ =~= seq!['u', 's', 'b']);
            assert(syspath_lit@ =~= seq!['s', 'y', 's', 'p', 'a', 't', 'h']);
            assert(devnode_lit@ =~= seq!['d', 'e', 'v', 'n', 'o', 'd', 'e']);
        }
        if range_is_lit(&chars, pos, ci, usb_lit.as_slice()) {
            proof {
                assert(kind + seq![':'] =~= seq!['u', 's', 'b', ':']);
                assert(rem.take(4) =~= kind + seq![':']);
                assert(rem.skip(4) =~= body);
            }
            Self::parse_usb(&chars, ci + 1, level, Ghost(body))
        } else if range_is_lit(&chars, pos, ci, syspath_lit.as_slice()) {
            proof {
                assert(kind + seq![':'] =~= seq!['s', 'y', 's', 'p', 'a', 't', 'h', ':']);
                assert(rem.take(8) =~= kind + seq![':']);
                assert(rem.skip(8) =~= body);
            }
            let path = Self::take_rest(&chars, ci + 1);
            if Self::check_path_under(&path, '/', 's', 'y', 's') {
                Ok(DeviceRef { parent_level: level, kind: DeviceKind::Syspath(path) })
            } else {
                Err(SelectorParseError)
            }
        } else if range_is_lit(&chars, pos, ci, devnode_lit.as_slice()) {
            proof {
                assert(kind + seq![':'] =~= seq!['d', 'e', 'v', 'n', 'o', 'd', 'e', ':']);
                assert(rem.take(8) =~= kind + seq![':']);
                assert(rem.skip(8) =~= body);
            }
            let path = Self::take_rest(&chars, ci + 1);
            let nlen = path.unicode_len();
            if Self::check_path_under(&path, '/', 'd', 'e', 'v') && path.get_char(nlen - 1) != '/' {
                Ok(DeviceRef { parent_level: level, kind: DeviceKind::Devnode(path) })
            } else {
                Err(SelectorParseError)
            }
        } else {
            Err(SelectorParseError)
        }
    }

    /// The characters from `start` to the end, as a `String`.
    fn take_rest(chars: &Vec<char>, start: usize) -> (r: String)
        requires
            start <= chars@.len(),
        ensures
            r@ == chars@.skip(start as int),
    {
        let n = chars.len();
        let mut out: Vec<char> = Vec::new();
        let mut i = start;
        while i < n
            invariant
                start <= i <= n == chars@.len(),
                out@ == chars@.subrange(start as int, i as int),
            decreases n - i,
        {
            out.push(chars[i]);
            proof {
                assert(out@ =~= chars@.subrange(start as int, i + 1));
            }
            i = i + 1;
        }
        proof {
            assert(chars@.subrange(start as int, n as int) =~= chars@.skip(start as int));
        }
        chars_to_string(&out)
    }

    /// Whether `path` is absolute and under the root given by the four
    /// characters.
    fn check_path_under(path: &String, r0: char, r1: char, r2: char, r3: char) -> (r: bool)
        ensures
            r == path_under(path@, seq![r0, r1, r2, r3]),
    {
        let s = path.as_str();
        let n = s.unicode_len();
        if n < 4 {
            return false;
        }
        let head_ok = s.get_char(0) == r0 && s.get_char(1) == r1 && s.get_char(2) == r2
            && s.get_char(3) == r3;
        proof {
            if head_ok {
                assert(path@.take(4) =~= seq![r0, r1, r2, r3]);
            } else {
                assert(path@.take(4) != seq![r0, r1, r2, r3]) by {
                    assert(path@.take(4)[0] == path@[0] && path@.take(4)[1] == path@[1]
                        && path@.take(4)[2] == path@[2] && path@.take(4)[3] == path@[3]);
                }
            }
        }
        if !head_ok {
            return false;
        }
        if n == 4 {
            return true;
        }
        s.get_char(4) == '/'
    }

    fn parse_usb(chars: &Vec<char>, start: usize, level: usize, Ghost(body): Ghost<Seq<char>>) -> (r:
        Result<DeviceRef, SelectorParseError>)
        requires
            start <= chars@.len(),
            body == chars@.skip(start as int),
        ensures
            (r is Ok) == usb_selector_ok(spec_split(body, ':')),
            ({
                let parts = spec_split(body, ':');
                match r {
                    Ok(d) => {
                        &&& d.parent_level == level
                        &&& (match d.kind {
                            DeviceKind::Usb { vid, pid, serial } => {
                                &&& vid@ == spec_to_lower(parts[0])
                                &&& (match pid {
                                    Some(p) => parts.len() >= 2 && p@ == spec_to_lower(parts[1]),
                                    None => parts.len() < 2,
                                })
                                &&& (match serial {
                                    Some(sn) => parts.len() == 3 && sn@ == parts[2],
                                    None => parts.len() < 3,
                                })
                            },
                            _ => false,
                        })
                    },
                    Err(_) => true,
                }
            }),
    {
        let parts = split_chars(chars, start, ':');
        let ghost sparts = spec_split(body, ':');
        proof {
            assert(parts.deep_view() == sparts);
            assert(parts@.len() == sparts.len());
            lemma_split_nonempty(body, ':');
            assert forall|t: int| 0 <= t < parts@.len() implies (#[trigger] parts@[t]@) == sparts[t] by {
                assert(parts.deep_view()[t] == parts@[t]@);
            }
        }
        if parts.len() > 3 {
            return Err(SelectorParseError);
        }
        let vid = &parts[0];
        if !is_hex4(vid.as_str()) {
            return Err(SelectorParseError);
        }
        proof {
            lemma_hex4_ascii(sparts[0]);
        }
        let vid_l = to_ascii_lower(vid.as_str());
        let pid_l: Option<String>;
        if parts.len() >= 2 {
            let pid = &parts[1];
            if !is_hex4(pid.as_str()) {
                return Err(SelectorParseError);
            }
            proof {
                lemma_hex4_ascii(sparts[1]);
            }
            pid_l = Some(to_ascii_lower(pid.as_str()));
        } else {
            pid_l = None;
        }
        let serial: Option<String>;
        if parts.len() == 3 {
            let sn = &parts[2];
            if !check_alnum(sn.as_str()) {
                return Err(SelectorParseError);
            }
            serial = Some(sn.clone());
        } else {
            serial = None;
        }
        Ok(DeviceRef {
            parent_level: level,
            kind: DeviceKind::Usb { vid: vid_l, pid: pid_l, serial },
        })
    }
}

pub(crate) proof fn lemma_hex4_ascii(s: Seq<char>)
    requires
        spec_is_hex4(s),
    ensures
        forall|i: int| 0 <= i < s.len() ==> is_ascii_char(#[trigger] s[i]),
{
    assert forall|i: int| 0 <= i < s.len() implies is_ascii_char(#[trigger] s[i]) by {
        assert(is_hex_digit(s[i]));
    }
}

/// Whether `s` is non-empty and all ASCII alphanumeric.
fn check_alnum(s: &str) -> (r: bool)
    ensures
        r == (s@.len() >= 1 && forall|i: int| 0 <= i < s@.len() ==> is_alnum_char(#[trigger] s@[i])),
{
    let n = s.unicode_len();
    if n == 0 {
        return false;
    }
    for i in 0..n
        invariant
            n == s@.len(),
            n >= 1,
            forall|j: int| 0 <= j < i ==> is_alnum_char(#[trigger] s@[j]),
    {
        let code = s.get_char(i) as u32;
        if !((48 <= code && code <= 57) || (65 <= code && code <= 90) || (97 <= code && code
            <= 122)) {
            return false;
        }
    }
    true
}

/// The split of `prefix + rest` at `sep`, where `prefix` holds no `sep`:
/// the first piece is `prefix` extended by the head of the split of `rest`.
pub open spec fn spec_split_with_prefix(prefix: Seq<char>, rest: Seq<char>, sep: char) -> Seq<Seq<char>> {
    let tail = spec_split(rest, sep);
    seq![prefix + tail[0]] + tail.drop_first()
}

proof fn lemma_split_nonempty(s: Seq<char>, sep: char)
    ensures
        spec_split(s, sep).len() >= 1,
{
    lemma_find_sep_bounds(s, sep);
}

proof fn lemma_split_prefix_empty(prefix: Seq<char>, sep: char)
    ensures
        spec_split_with_prefix(prefix, Seq::empty(), sep) == seq![prefix],
{
    let e = Seq::<char>::empty();
    assert(find_sep(e, sep) is None);
    assert(spec_split(e, sep) == seq![e]);
    assert(prefix + e =~= prefix);
    assert(spec_split_with_prefix(prefix, e, sep) =~= seq![prefix]);
}

proof fn lemma_split_head(rest: Seq<char>, sep: char)
    requires
        rest.len() > 0,
        rest[0] != sep,
    ensures
        spec_split(rest, sep)[0] == seq![rest[0]] + spec_split(rest.drop_first(), sep)[0],
        spec_split(rest, sep).drop_first() == spec_split(rest.drop_first(), sep).drop_first(),
{
    let r1 = rest.drop_first();
    lemma_find_sep_bounds(rest, sep);
    lemma_find_sep_bounds(r1, sep);
    match find_sep(r1, sep) {
        None => {
            assert(find_sep(rest, sep) is None);
            assert(spec_split(rest, sep) == seq![rest]);
            assert(spec_split(r1, sep) == seq![r1]);
            assert(rest =~= seq![rest[0]] + r1);
            assert(spec_split(rest, sep).drop_first() =~= spec_split(r1, sep).drop_first());
        },
        Some(i) => {
            assert(find_sep(rest, sep) == Some(i + 1));
            assert(rest.take(i + 1) =~= seq![rest[0]] + r1.take(i));
            assert(rest.skip(i + 2) =~= r1.skip(i + 1));
            assert(spec_split(rest, sep).drop_first() =~= spec_split(r1, sep).drop_first());
        },
    }
}

proof fn lemma_split_prefix_step(rest: Seq<char>, rest1: Seq<char>, prefix: Seq<char>, sep: char)
    requires
        rest.len() > 0,
        rest1 == rest.drop_first(),
        rest[0] != sep,
    ensures
        spec_split_with_prefix(prefix, rest, sep) == spec_split_with_prefix(
            prefix.push(rest[0]),
            rest1,
            sep,
        ),
{
    lemma_split_head(rest, sep);
    let t0 = spec_split(rest, sep);
    let t1 = spec_split(rest1, sep);
    lemma_split_nonempty(rest, sep);
    lemma_split_nonempty(rest1, sep);
    assert(prefix + t0[0] =~= prefix.push(rest[0]) + t1[0]);
    assert(spec_split_with_prefix(prefix, rest, sep) =~= spec_split_with_prefix(
        prefix.push(rest[0]),
        rest1,
        sep,
    ));
}

proof fn lemma_split_prefix_sep(rest: Seq<char>, sep: char)
    requires
        rest.len() > 0,
        rest[0] == sep,
    ensures
        forall|prefix: Seq<char>|
            #![all_triggers]
            spec_split_with_prefix(prefix, rest, sep) == seq![prefix] + spec_split_with_prefix(
                Seq::<char>::empty(),
                rest.drop_first(),
                sep,
            ),
{
    assert forall|prefix: Seq<char>|
        #![all_triggers]
        spec_split_with_prefix(prefix, rest, sep) == seq![prefix] + spec_split_with_prefix(
            Seq::<char>::empty(),
            rest.drop_first(),
            sep,
        ) by {
        assert(find_sep(rest, sep) == Some(0int));
        assert(rest.skip(1) =~= rest.drop_first());
        assert(rest.take(0) =~= Seq::<char>::empty());
        let tail = spec_split(rest.drop_first(), sep);
        lemma_split_nonempty(rest.drop_first(), sep);
        assert(spec_split(rest, sep) == seq![Seq::<char>::empty()] + tail);
        assert(prefix + (seq![Seq::<char>::empty()] + tail)[0] =~= prefix);
        assert((seq![Seq::<char>::empty()] + tail).drop_first() =~= tail);
        assert(Seq::<char>::empty() + tail[0] =~= tail[0]);
        assert(spec_split_with_prefix(prefix, rest, sep) =~= seq![prefix]
            + spec_split_with_prefix(Seq::<char>::empty(), rest.drop_first(), sep));
    }
}

/// Split the characters from `start` on at every `sep` into `String`s.
pub(crate) fn split_chars(chars: &Vec<char>, start: usize, sep: char) -> (r: Vec<String>)
    requires
        start <= chars@.len(),
    ensures
        r.deep_view() == spec_split(chars@.skip(start as int), sep),
{
    let n = chars.len();
    let mut out: Vec<String> = Vec::new();
    let mut piece: Vec<char> = Vec::new();
    let mut i = start;
    proof {
        assert(out.deep_view() =~= Seq::<Seq<char>>::empty());
    }
    while i < n
        invariant
            start <= i <= n == chars@.len(),
            spec_split(chars@.skip(start as int), sep) == out.deep_view()
                + spec_split_with_prefix(piece@, chars@.skip(i as int), sep),
        decreases n - i,
    {
        let ghost rest = chars@.skip(i as int);
        proof {
            assert(rest[0] == chars@[i as int]);
            assert(rest.drop_first() =~= chars@.skip(i + 1));
        }
        let c = chars[i];
        if c == sep {
            let ghost old_out = out.deep_view();
            let ghost old_piece = piece@;
            out.push(chars_to_string(&piece));
            piece = Vec::new();
            proof {
                lemma_split_prefix_sep(rest, sep);
                assert(out.deep_view() =~= old_out.push(old_piece));
                assert(old_out + (seq![old_piece] + spec_split_with_prefix(
                    Seq::<char>::empty(),
                    rest.drop_first(),
                    sep,
                )) =~= out.deep_view() + spec_split_with_prefix(
                    Seq::<char>::empty(),
                    rest.drop_first(),
                    sep,
                ));
            }
        } else {
            proof {
                lemma_split_prefix_step(rest, rest.drop_first(), piece@, sep);
            }
            piece.push(c);
        }
        i = i + 1;
    }
    let ghost old_out = out.deep_view();
    out.push(chars_to_string(&piece));
    proof {
        assert(chars@.skip(n as int) =~= Seq::<char>::empty());
        lemma_split_prefix_empty(piece@, sep);
        assert(out.deep_view() =~= old_out.push(piece@));
        assert(old_out + seq![piece@] =~= out.deep_view());
    }
    out
}

} // verus!
