//! Unescaping of udev-escaped devnode names. Udev only emits hexadecimal
//! escapes, each `\xHH` standing for the character with code `HH`.

use vstd::prelude::*;

verus! {

/// The input contained a malformed escape sequence.
#[derive(Debug, Clone, Copy, PartialEq, Eq, Structural)]
pub struct InvalidEscapeError;

/// Whether `c` is an ASCII hexadecimal digit.
pub open spec fn is_hex_digit(c: char) -> bool {
    (48 <= c as u32 <= 57) || (97 <= c as u32 <= 102) || (65 <= c as u32 <= 70)
}

/// The numeric value of an ASCII hexadecimal digit.
pub open spec fn hex_value(c: char) -> u32
    recommends
        is_hex_digit(c),
{
    if 48 <= c as u32 <= 57 {
        (c as u32 - 48) as u32
    } else if 97 <= c as u32 <= 102 {
        (c as u32 - 87) as u32
    } else {
        (c as u32 - 55) as u32
    }
}

/// The unescaped form of `s`, or `None` where an escape is malformed: every
/// `\` must be followed by `x` and two hexadecimal digits, which denote one
/// character; every other character stands for itself.
pub open spec fn spec_unescape(s: Seq<char>) -> Option<Seq<char>>
    decreases s.len(),
{
    if s.len() == 0 {
        Some(Seq::empty())
    } else if s[0] != '\\' {
        match spec_unescape(s.drop_first()) {
            Some(rest) => Some(seq![s[0]] + rest),
            None => None,
        }
    } else if s.len() >= 4 && s[1] == 'x' && is_hex_digit(s[2]) && is_hex_digit(s[3]) {
        match spec_unescape(s.skip(4)) {
            Some(rest) => Some(
                seq![((hex_value(s[2]) * 16 + hex_value(s[3])) as u8) as char] + rest,
            ),
            None => None,
        }
    } else {
        None
    }
}

/// Relies on `core::iter::Iterator::collect`: collecting characters yields
/// the string with exactly those characters.
#[verifier::external_body]
pub(crate) fn chars_to_string(v: &Vec<char>) -> (r: String)
    ensures
        r@ == v@,
{
    v.iter().collect()
}

fn hex_digit_value(c: char) -> (r: Option<u32>)
    ensures
        match r {
            Some(v) => is_hex_digit(c) && v == hex_value(c),
            None => !is_hex_digit(c),
        },
{
    let code = c as u32;
    if 48 <= code && code <= 57 {
        Some(code - 48)
    } else if 97 <= code && code <= 102 {
        Some(code - 87)
    } else if 65 <= code && code <= 70 {
        Some(code - 55)
    } else {
        None
    }
}

/// Unescape a udev-escaped devnode name.
pub fn unescape_devnode(escaped: &str) -> (r: Result<String, InvalidEscapeError>)
    ensures
        match r {
            Ok(out) => spec_unescape(escaped@) == Some(out@),
            Err(_) => spec_unescape(escaped@) is None,
        },
{
    let n = escaped.unicode_len();
    let mut out: Vec<char> = Vec::new();
    let mut i: usize = 0;
    proof {
        assert(escaped@.skip(0) =~= escaped@);
        assert(spec_unescape(escaped@) matches Some(full) ==> Seq::<char>::empty() + full =~= full);
    }
    while i < n
        invariant
            n == escaped@.len(),
            i <= n,
            (spec_unescape(escaped@) is Some) == (spec_unescape(escaped@.skip(i as int)) is Some),
            spec_unescape(escaped@.skip(i as int)) matches Some(rest) ==> spec_unescape(escaped@)
                == Some(out@ + rest),
        decreases n - i,
    {
        let ghost pending = escaped@.skip(i as int);
        let c = escaped.get_char(i);
        proof {
            assert(pending[0] == escaped@[i as int]);
        }
        if c != '\\' {
            out.push(c);
            i = i + 1;
            proof {
                assert(pending.drop_first() =~= escaped@.skip(i as int));
                assert(spec_unescape(pending) == (match spec_unescape(pending.drop_first()) {
                    Some(rest) => Some(seq![c] + rest),
                    None => None,
                }));
                assert(spec_unescape(escaped@.skip(i as int)) matches Some(rest) ==> out@
                    + rest =~= out@.drop_last() + (seq![c] + rest));
            }
        } else {
            if n - i < 4 {
                proof {
                    assert(spec_unescape(pending) is None);
                }
                return Err(InvalidEscapeError);
            }
            let cx = escaped.get_char(i + 1);
            let c2 = escaped.get_char(i + 2);
            let c3 = escaped.get_char(i + 3);
            proof {
                assert(pending[1] == escaped@[i + 1]);
                assert(pending[2] == escaped@[i + 2]);
                assert(pending[3] == escaped@[i + 3]);
            }
            if cx != 'x' {
                proof {
                    assert(spec_unescape(pending) is None);
                }
                return Err(InvalidEscapeError);
            }
            let hi = match hex_digit_value(c2) {
                Some(v) => v,
                None => {
                    proof {
                        assert(spec_unescape(pending) is None);
                    }
                    return Err(InvalidEscapeError);
                },
            };
            let lo = match hex_digit_value(c3) {
                Some(v) => v,
                None => {
                    proof {
                        assert(spec_unescape(pending) is None);
                    }
                    return Err(InvalidEscapeError);
                },
            };
            let decoded = ((hi * 16 + lo) as u8) as char;
            out.push(decoded);
            i = i + 4;
            proof {
                assert(pending.skip(4) =~= escaped@.skip(i as int));
                assert(spec_unescape(pending) == (match spec_unescape(pending.skip(4)) {
                    Some(rest) => Some(seq![decoded] + rest),
                    None => None,
                }));
                assert(spec_unescape(escaped@.skip(i as int)) matches Some(rest) ==> out@
                    + rest =~= out@.drop_last() + (seq![decoded] + rest));
            }
        }
    }
    proof {
        assert(escaped@.skip(n as int) =~= Seq::<char>::empty());
        assert(out@ + Seq::<char>::empty() =~= out@);
    }
    Ok(chars_to_string(&out))
}

} // verus!
