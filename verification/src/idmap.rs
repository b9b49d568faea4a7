//! Parsing and application of `/proc/<pid>/uid_map` / `gid_map` contents.
//! Each line is `<inside> <outside> <count>`; translation through the map is
//! piecewise, and arithmetic overflow anywhere makes the translation fail.

use vstd::prelude::*;

verus! {

/// The id-map text did not have three unsigned numbers on every line.
#[derive(Debug, Clone, Copy, PartialEq, Eq, Structural)]
pub struct IdMapParseError;

/// Whether `c` is an ASCII decimal digit.
pub open spec fn is_digit(c: char) -> bool {
    48 <= c as u32 <= 57
}

/// Whether `c` is ASCII whitespace, as `split_ascii_whitespace` understands
/// it: space, tab, newline, form feed or carriage return.
pub open spec fn is_ascii_ws(c: char) -> bool {
    c == ' ' || c == '\t' || c == '\n' || c == '\u{c}' || c == '\r'
}

/// The numeric value of a sequence of decimal digits.
pub open spec fn dec_value(digits: Seq<char>) -> nat
    decreases digits.len(),
{
    if digits.len() == 0 {
        0
    } else {
        dec_value(digits.drop_last()) * 10 + (digits.last() as u32 - 48) as nat
    }
}

/// The digit portion of a numeric token: everything after an optional
/// leading `+` sign.
pub open spec fn u32_digits(tok: Seq<char>) -> Seq<char> {
    if tok.len() >= 1 && tok[0] == '+' {
        tok.drop_first()
    } else {
        tok
    }
}

/// What parsing a token as a `u32` yields: an optional `+` sign, then at
/// least one digit, with a value that fits.
pub open spec fn parse_u32(tok: Seq<char>) -> Option<u32> {
    let digits = u32_digits(tok);
    if digits.len() >= 1 && (forall|i: int| 0 <= i < digits.len() ==> is_digit(#[trigger] digits[i]))
        && dec_value(digits) <= u32::MAX {
        Some(dec_value(digits) as u32)
    } else {
        None
    }
}

/// Length of the first line segment of `s`, the newline included.
pub open spec fn first_break(s: Seq<char>) -> int
    decreases s.len(),
{
    if s.len() == 0 {
        0
    } else if s[0] == '\n' {
        1
    } else {
        1 + first_break(s.drop_first())
    }
}

pub(crate) proof fn lemma_first_break_at(s: Seq<char>, m: int)
    requires
        0 <= m <= s.len(),
        forall|k: int| 0 <= k < m ==> s[k] != '\n',
        m == s.len() || s[m] == '\n',
    ensures
        first_break(s) == if m == s.len() {
            m
        } else {
            m + 1
        },
    decreases s.len(),
{
    if s.len() > 0 && s[0] != '\n' {
        lemma_first_break_at(s.drop_first(), m - 1);
    }
}

/// One line, with its terminator (`\n`, or `\r\n`) removed.
pub open spec fn strip_line(seg: Seq<char>) -> Seq<char> {
    if seg.len() > 0 && seg.last() == '\n' {
        let t = seg.drop_last();
        if t.len() > 0 && t.last() == '\r' {
            t.drop_last()
        } else {
            t
        }
    } else {
        seg
    }
}

/// `first_break` always names a split point: positive, and within bounds.
pub proof fn lemma_first_break_bounds(s: Seq<char>)
    ensures
        s.len() == 0 ==> first_break(s) == 0,
        s.len() > 0 ==> 1 <= first_break(s) <= s.len(),
    decreases s.len(),
{
    if s.len() > 0 && s[0] != '\n' {
        lemma_first_break_bounds(s.drop_first());
    }
}

/// The lines of `s`, split as `str::lines` splits them.
pub open spec fn spec_lines(s: Seq<char>) -> Seq<Seq<char>>
    decreases s.len(),
    via spec_lines_decreases
{
    if s.len() == 0 {
        Seq::empty()
    } else {
        let b = first_break(s);
        seq![strip_line(s.take(b))] + spec_lines(s.skip(b))
    }
}

#[via_fn]
proof fn spec_lines_decreases(s: Seq<char>) {
    lemma_first_break_bounds(s);
}

/// Length of the leading whitespace run of `s`.
pub open spec fn ws_run(s: Seq<char>) -> int
    decreases s.len(),
{
    if s.len() == 0 || !is_ascii_ws(s[0]) {
        0
    } else {
        1 + ws_run(s.drop_first())
    }
}

/// Length of the leading non-whitespace run of `s`.
pub open spec fn token_run(s: Seq<char>) -> int
    decreases s.len(),
{
    if s.len() == 0 || is_ascii_ws(s[0]) {
        0
    } else {
        1 + token_run(s.drop_first())
    }
}

/// `ws_run` stays within the sequence.
pub proof fn lemma_ws_run_bounds(s: Seq<char>)
    ensures
        0 <= ws_run(s) <= s.len(),
    decreases s.len(),
{
    if s.len() > 0 && is_ascii_ws(s[0]) {
        lemma_ws_run_bounds(s.drop_first());
    }
}

/// `token_run` stays within the sequence, and is positive on a
/// non-whitespace head.
pub proof fn lemma_token_run_bounds(s: Seq<char>)
    ensures
        0 <= token_run(s) <= s.len(),
        s.len() > 0 && !is_ascii_ws(s[0]) ==> token_run(s) >= 1,
    decreases s.len(),
{
    if s.len() > 0 && !is_ascii_ws(s[0]) {
        lemma_token_run_bounds(s.drop_first());
    }
}

/// The whitespace-separated tokens of `s`.
pub open spec fn spec_tokens(s: Seq<char>) -> Seq<Seq<char>>
    decreases s.len(),
    via spec_tokens_decreases
{
    if s.len() == 0 {
        Seq::empty()
    } else if is_ascii_ws(s[0]) {
        spec_tokens(s.drop_first())
    } else {
        let t = token_run(s);
        seq![s.take(t)] + spec_tokens(s.skip(t))
    }
}

#[via_fn]
proof fn spec_tokens_decreases(s: Seq<char>) {
    lemma_token_run_bounds(s);
}

/// What parsing one id-map line yields: its first three tokens, each an
/// unsigned number; further tokens are ignored.
pub open spec fn parse_idmap_line(line: Seq<char>) -> Option<(u32, u32, u32)> {
    let toks = spec_tokens(line);
    if toks.len() < 3 {
        None
    } else {
        match (parse_u32(toks[0]), parse_u32(toks[1]), parse_u32(toks[2])) {
            (Some(a), Some(b), Some(c)) => Some((a, b, c)),
            _ => None,
        }
    }
}

/// What parsing a whole id-map text yields: one entry per line, every line
/// well-formed.
pub open spec fn parse_idmap_lines(lines: Seq<Seq<char>>) -> Option<Seq<(u32, u32, u32)>>
    decreases lines.len(),
{
    if lines.len() == 0 {
        Some(Seq::empty())
    } else {
        match (parse_idmap_line(lines[0]), parse_idmap_lines(lines.drop_first())) {
            (Some(e), Some(rest)) => Some(seq![e] + rest),
            _ => None,
        }
    }
}

/// The translation of `id` through the map entries, first matching range
/// wins. Overflow while checking a range, or while translating, fails the
/// whole lookup, as the supervisor treats any arithmetic doubt as "no
/// mapping".
pub open spec fn spec_translate(entries: Seq<(u32, u32, u32)>, id: u32) -> Option<u32>
    decreases entries.len(),
{
    if entries.len() == 0 {
        None
    } else {
        let (inside, outside, count) = entries[0];
        if inside + count > u32::MAX {
            None
        } else if inside <= id < inside + count {
            if id - inside + outside > u32::MAX {
                None
            } else {
                Some((id - inside + outside) as u32)
            }
        } else {
            spec_translate(entries.drop_first(), id)
        }
    }
}

/// A parsed uid or gid map: `(inside, outside, count)` ranges.
pub struct IdMap {
    map: Vec<(u32, u32, u32)>,
}

pub(crate) fn str_chars(s: &str) -> (r: Vec<char>)
    ensures
        r@ == s@,
{
    let n = s.unicode_len();
    let mut r: Vec<char> = Vec::new();
    for i in 0..n
        invariant
            n == s@.len(),
            r@ == s@.take(i as int),
    {
        r.push(s.get_char(i));
        proof {
            assert(r@ =~= s@.take(i + 1));
        }
    }
    proof {
        assert(s@.take(n as int) =~= s@);
    }
    r
}

proof fn lemma_dec_value_grows(digits: Seq<char>, j: int)
    requires
        0 <= j <= digits.len(),
    ensures
        dec_value(digits.take(j)) <= dec_value(digits),
    decreases digits.len() - j,
{
    if j < digits.len() {
        assert(digits.take(j + 1).drop_last() =~= digits.take(j));
        assert(dec_value(digits.take(j)) <= dec_value(digits.take(j + 1)));
        lemma_dec_value_grows(digits, j + 1);
    } else {
        assert(digits.take(j) =~= digits);
    }
}

fn parse_u32_chars(chars: &Vec<char>, start: usize, end: usize) -> (r: Option<u32>)
    requires
        start <= end <= chars@.len(),
    ensures
        r == parse_u32(chars@.subrange(start as int, end as int)),
{
    let ghost tok = chars@.subrange(start as int, end as int);
    let mut i = start;
    if i < end && chars[i] == '+' {
        i = i + 1;
    }
    let ghost digits = u32_digits(tok);
    proof {
        if start < end {
            assert(tok[0] == chars@[start as int]);
        }
        assert(digits =~= chars@.subrange(i as int, end as int));
    }
    if i == end {
        proof {
            assert(digits.len() == 0);
            assert(parse_u32(tok) is None);
        }
        return None;
    }
    let mut acc: u32 = 0;
    let mut j = i;
    while j < end
        invariant
            start <= i <= j <= end <= chars@.len(),
            tok == chars@.subrange(start as int, end as int),
            digits == u32_digits(tok),
            digits == chars@.subrange(i as int, end as int),
            forall|k: int| i <= k < j ==> is_digit(#[trigger] chars@[k]),
            acc == dec_value(digits.take(j - i)),
        decreases end - j,
    {
        let c = chars[j];
        let code = c as u32;
        if !(48 <= code && code <= 57) {
            proof {
                assert(digits[j - i] == chars@[j as int]);
                assert(0 <= j - i < u32_digits(tok).len() && !is_digit(u32_digits(tok)[j - i]));
                assert(!(forall|k: int|
                    0 <= k < u32_digits(tok).len() ==> is_digit(#[trigger] u32_digits(tok)[k])));
                assert(parse_u32(tok) is None);
            }
            return None;
        }
        let d = code - 48;
        if acc > (0xffff_ffffu32 - d) / 10 {
            proof {
                assert(digits.take(j - i + 1).drop_last() =~= digits.take(j - i));
                assert(digits.take(j - i + 1).last() == chars@[j as int]);
                assert(dec_value(digits.take(j - i + 1)) == acc * 10 + d);
                assert(acc > (0xffff_ffffu32 - d) / 10 ==> acc * 10 + d > 0xffff_ffffu32)
                    by (nonlinear_arith);
                lemma_dec_value_grows(digits, j - i + 1);
            }
            return None;
        }
        proof {
            assert(acc <= (0xffff_ffffu32 - d) / 10 ==> acc * 10 + d <= 0xffff_ffffu32)
                by (nonlinear_arith);
            assert(digits.take(j - i + 1).drop_last() =~= digits.take(j - i));
            assert(digits.take(j - i + 1).last() == chars@[j as int]);
        }
        acc = acc * 10 + d;
        j = j + 1;
    }
    proof {
        assert(digits.take(end - i) =~= digits);
        assert forall|k: int| 0 <= k < digits.len() implies is_digit(#[trigger] digits[k]) by {
            assert(digits[k] == chars@[i + k]);
        }
    }
    Some(acc)
}

pub(crate) fn is_ws_char(c: char) -> (r: bool)
    ensures
        r == is_ascii_ws(c),
{
    c == ' ' || c == '\t' || c == '\n' || c == '\u{c}' || c == '\r'
}

fn find_token(chars: &Vec<char>, start: usize, end: usize) -> (r: (usize, usize))
    requires
        start <= end <= chars@.len(),
    ensures
        ({
            let rest = chars@.subrange(start as int, end as int);
            let (ts, te) = r;
            &&& start <= ts <= te <= end
            &&& ts - start == ws_run(rest)
            &&& te - ts == token_run(chars@.subrange(ts as int, end as int))
        }),
{
    let mut ts = start;
    while ts < end && is_ws_char(chars[ts])
        invariant
            start <= ts <= end <= chars@.len(),
            ws_run(chars@.subrange(start as int, end as int)) == ts - start + ws_run(
                chars@.subrange(ts as int, end as int),
            ),
        decreases end - ts,
    {
        proof {
            let before = chars@.subrange(ts as int, end as int);
            assert(before[0] == chars@[ts as int]);
            assert(before.drop_first() =~= chars@.subrange(ts + 1, end as int));
        }
        ts = ts + 1;
    }
    proof {
        let rest = chars@.subrange(ts as int, end as int);
        if ts < end {
            assert(rest[0] == chars@[ts as int]);
        }
        assert(ws_run(rest) == 0);
    }
    let mut te = ts;
    while te < end && !is_ws_char(chars[te])
        invariant
            ts <= te <= end <= chars@.len(),
            token_run(chars@.subrange(ts as int, end as int)) == te - ts + token_run(
                chars@.subrange(te as int, end as int),
            ),
        decreases end - te,
    {
        proof {
            let before = chars@.subrange(te as int, end as int);
            assert(before[0] == chars@[te as int]);
            assert(before.drop_first() =~= chars@.subrange(te + 1, end as int));
        }
        te = te + 1;
    }
    proof {
        let rest = chars@.subrange(te as int, end as int);
        if te < end {
            assert(rest[0] == chars@[te as int]);
        }
        assert(token_run(rest) == 0);
    }
    (ts, te)
}

proof fn lemma_tokens_skip(s: Seq<char>, ws: int, t: int)
    requires
        0 <= ws <= s.len(),
        ws == ws_run(s),
        t == token_run(s.skip(ws)),
    ensures
        t > 0 ==> spec_tokens(s) == seq![s.skip(ws).take(t)] + spec_tokens(s.skip(ws + t)),
        t == 0 ==> spec_tokens(s) == Seq::<Seq<char>>::empty() && ws == s.len(),
    decreases ws,
{
    lemma_ws_run_bounds(s);
    lemma_token_run_bounds(s.skip(ws));
    if s.len() > 0 {
        lemma_ws_run_bounds(s.drop_first());
        lemma_token_run_bounds(s.drop_first());
    }
    if ws == 0 {
        if s.len() == 0 {
            assert(token_run(s.skip(0)) == token_run(s));
        } else {
            assert(s.skip(0) =~= s);
            lemma_token_run_bounds(s);
            if t == 0 {
                assert(!is_ascii_ws(s[0]) && token_run(s) == 0);
                assert(false);
            } else {
                assert(spec_tokens(s) == seq![s.take(token_run(s))] + spec_tokens(
                    s.skip(token_run(s)),
                ));
                assert(s.take(token_run(s)) =~= s.skip(0).take(t));
            }
        }
    } else {
        assert(is_ascii_ws(s[0]));
        assert(ws_run(s) == 1 + ws_run(s.drop_first()));
        assert(s.drop_first().skip(ws - 1) =~= s.skip(ws));
        lemma_tokens_skip(s.drop_first(), ws - 1, t);
        if t > 0 {
            assert(s.drop_first().skip(ws - 1 + t) =~= s.skip(ws + t));
        }
    }
}

fn parse_line(chars: &Vec<char>, start: usize, end: usize) -> (r: Option<(u32, u32, u32)>)
    requires
        start <= end <= chars@.len(),
    ensures
        r == parse_idmap_line(chars@.subrange(start as int, end as int)),
{
    let ghost line = chars@.subrange(start as int, end as int);
    let ghost toks = spec_tokens(line);

    let (s1, e1) = find_token(chars, start, end);
    proof {
        assert(line.skip(s1 - start) =~= chars@.subrange(s1 as int, end as int));
        assert(ws_run(line) == s1 - start) by {
            assert(line =~= chars@.subrange(start as int, end as int));
        }
        lemma_tokens_skip(line, s1 - start, e1 - s1);
        if e1 - s1 > 0 {
            assert(line.skip(s1 - start).take(e1 - s1) =~= chars@.subrange(s1 as int, e1 as int));
            assert(line.skip(s1 - start + (e1 - s1)) =~= chars@.subrange(e1 as int, end as int));
        }
    }
    if s1 == e1 {
        return None;
    }
    let ghost rest1 = chars@.subrange(e1 as int, end as int);

    let (s2, e2) = find_token(chars, e1, end);
    proof {
        assert(rest1.skip(s2 - e1) =~= chars@.subrange(s2 as int, end as int));
        lemma_tokens_skip(rest1, s2 - e1, e2 - s2);
        if e2 - s2 > 0 {
            assert(rest1.skip(s2 - e1).take(e2 - s2) =~= chars@.subrange(s2 as int, e2 as int));
            assert(rest1.skip(s2 - e1 + (e2 - s2)) =~= chars@.subrange(e2 as int, end as int));
        }
    }
    if s2 == e2 {
        return None;
    }
    let ghost rest2 = chars@.subrange(e2 as int, end as int);

    let (s3, e3) = find_token(chars, e2, end);
    proof {
        assert(rest2.skip(s3 - e2) =~= chars@.subrange(s3 as int, end as int));
        lemma_tokens_skip(rest2, s3 - e2, e3 - s3);
        if e3 - s3 > 0 {
            assert(rest2.skip(s3 - e2).take(e3 - s3) =~= chars@.subrange(s3 as int, e3 as int));
        }
    }
    if s3 == e3 {
        return None;
    }
    proof {
        assert(toks[0] == chars@.subrange(s1 as int, e1 as int));
        assert(toks[1] == chars@.subrange(s2 as int, e2 as int));
        assert(toks[2] == chars@.subrange(s3 as int, e3 as int));
    }

    let a = parse_u32_chars(chars, s1, e1);
    let b = parse_u32_chars(chars, s2, e2);
    let c = parse_u32_chars(chars, s3, e3);
    match (a, b, c) {
        (Some(a), Some(b), Some(c)) => Some((a, b, c)),
        _ => None,
    }
}

proof fn lemma_idmap_line_step(all_lines: Seq<Seq<char>>, line: Seq<char>, rest_lines: Seq<Seq<char>>)
    requires
        all_lines == seq![line] + rest_lines,
    ensures
        parse_idmap_lines(all_lines) == (match (parse_idmap_line(line), parse_idmap_lines(
            rest_lines,
        )) {
            (Some(e), Some(rest)) => Some(seq![e] + rest),
            _ => None,
        }),
{
    assert(all_lines.len() == 1 + rest_lines.len());
    assert(all_lines[0] == line);
    assert(all_lines.drop_first() =~= rest_lines);
}

impl IdMap {
    /// The entries, in file order.
    pub closed spec fn view(self) -> Seq<(u32, u32, u32)> {
        self.map@
    }

    /// Parse the contents of an id-map file: one `<inside> <outside>
    /// <count>` entry per line.
    pub fn parse(content: &str) -> (r: Result<IdMap, IdMapParseError>)
        ensures
            match r {
                Ok(m) => parse_idmap_lines(spec_lines(content@)) == Some(m@),
                Err(_) => parse_idmap_lines(spec_lines(content@)) is None,
            },
    {
        let chars = str_chars(content);
        let n = chars.len();
        let mut map: Vec<(u32, u32, u32)> = Vec::new();
        let mut i: usize = 0;
        proof {
            assert(chars@.skip(0) =~= chars@);
        }
        while i < n
            invariant
                n == chars@.len(),
                i <= n,
                chars@ == content@,
                (parse_idmap_lines(spec_lines(content@)) is Some) == (parse_idmap_lines(
                    spec_lines(chars@.skip(i as int)),
                ) is Some),
                parse_idmap_lines(spec_lines(chars@.skip(i as int))) matches Some(rest)
                    ==> parse_idmap_lines(spec_lines(content@)) == Some(map@ + rest),
            decreases n - i,
        {
            let ghost suffix = chars@.skip(i as int);
            // Find the end of the current line segment (newline included).
            let mut b = i;
            while b < n && chars[b] != '\n'
                invariant
                    i <= b <= n == chars@.len(),
                    forall|k: int| i <= k < b ==> chars@[k] != '\n',
                decreases n - b,
            {
                b = b + 1;
            }
            let seg_end = if b < n {
                b + 1
            } else {
                b
            };
            proof {
                assert forall|k: int| 0 <= k < b - i implies suffix[k] != '\n' by {
                    assert(suffix[k] == chars@[i + k]);
                }
                if b < n {
                    assert(suffix[b - i] == chars@[b as int]);
                }
                lemma_first_break_at(suffix, b - i);
                assert(first_break(suffix) == seg_end - i);
                assert(suffix.take(seg_end - i) =~= chars@.subrange(i as int, seg_end as int));
                assert(suffix.skip(seg_end - i) =~= chars@.skip(seg_end as int));
                assert(spec_lines(suffix) == seq![
                    strip_line(chars@.subrange(i as int, seg_end as int)),
                ] + spec_lines(chars@.skip(seg_end as int)));
            }
            // Strip the terminator to get the line proper.
            let mut line_end = b;
            if b < n && b > i && chars[b - 1] == '\r' {
                line_end = b - 1;
            }
            proof {
                let seg = chars@.subrange(i as int, seg_end as int);
                if seg_end > b {
                    assert(seg.last() == '\n');
                    assert(seg.drop_last() =~= chars@.subrange(i as int, b as int));
                    if b > i && chars@[b - 1] == '\r' {
                        assert(chars@.subrange(i as int, b as int).last() == '\r');
                        assert(chars@.subrange(i as int, b as int).drop_last() =~= chars@.subrange(
                            i as int,
                            line_end as int,
                        ));
                    }
                } else {
                    assert(b == n);
                    if seg.len() > 0 && seg.last() == '\n' {
                        assert(seg.last() == chars@[n - 1]);
                        assert(false);
                    }
                    assert(line_end == b);
                }
                assert(strip_line(seg) == chars@.subrange(i as int, line_end as int));
            }
            let entry = parse_line(&chars, i, line_end);
            match entry {
                Some(e) => {
                    map.push(e);
                    proof {
                        let lines_rest = spec_lines(chars@.skip(seg_end as int));
                        lemma_idmap_line_step(
                            spec_lines(suffix),
                            chars@.subrange(i as int, line_end as int),
                            lines_rest,
                        );
                        assert(parse_idmap_lines(lines_rest) matches Some(rest) ==> map@ + rest
                            =~= map@.drop_last() + (seq![e] + rest));
                    }
                },
                None => {
                    proof {
                        lemma_idmap_line_step(
                            spec_lines(suffix),
                            chars@.subrange(i as int, line_end as int),
                            spec_lines(chars@.skip(seg_end as int)),
                        );
                        assert(parse_idmap_lines(spec_lines(suffix)) is None);
                    }
                    return Err(IdMapParseError);
                },
            }
            i = seg_end;
        }
        proof {
            assert(chars@.skip(n as int) =~= Seq::<char>::empty());
            assert(map@ + Seq::<(u32, u32, u32)>::empty() =~= map@);
        }
        Ok(IdMap { map })
    }

    /// Build a map directly from its entries.
    pub fn from_entries(entries: Vec<(u32, u32, u32)>) -> (r: IdMap)
        ensures
            r@ == entries@,
    {
        IdMap { map: entries }
    }

    /// Whether this is exactly the identity map `0 0 4294967295`.
    pub fn is_identity(&self) -> (r: bool)
        ensures
            r == (self@ =~= seq![(0u32, 0u32, u32::MAX)]),
    {
        if self.map.len() != 1 {
            return false;
        }
        let (a, b, c) = self.map[0];
        let r = a == 0 && b == 0 && c == 0xffff_ffffu32;
        proof {
            assert(self@[0] == (a, b, c));
            if r {
                assert(self@ =~= seq![(0u32, 0u32, u32::MAX)]);
            }
        }
        r
    }

    /// Translate `id` through the map.
    pub fn translate(&self, id: u32) -> (r: Option<u32>)
        ensures
            r == spec_translate(self@, id),
    {
        let n = self.map.len();
        proof {
            assert(self@.skip(0) =~= self@);
        }
        for i in 0..n
            invariant
                n == self@.len(),
                spec_translate(self@, id) == spec_translate(self@.skip(i as int), id),
            decreases n - i,
        {
            let (inside, outside, count) = self.map[i];
            proof {
                assert(self@.skip(i as int)[0] == (inside, outside, count));
                assert(self@.skip(i as int).drop_first() =~= self@.skip(i + 1));
            }
            if count > 0xffff_ffffu32 - inside {
                return None;
            }
            if inside <= id && id < inside + count {
                if id - inside > 0xffff_ffffu32 - outside {
                    return None;
                }
                return Some(id - inside + outside);
            }
        }
        proof {
            assert(self@.skip(n as int) =~= Seq::<(u32, u32, u32)>::empty());
        }
        None
    }
}

/// Law: an identity-mapped namespace translates every id to itself. The
/// identity map is the single line `0 0 4294967295`; every id below
/// `u32::MAX` lies in its range and maps to itself.
pub proof fn lemma_identity_map_translates(id: u32)
    requires
        id < u32::MAX,
    ensures
        spec_translate(seq![(0u32, 0u32, u32::MAX)], id) == Some(id),
{
    let entries = seq![(0u32, 0u32, u32::MAX)];
    assert(entries[0] == (0u32, 0u32, u32::MAX));
}

} // verus!
