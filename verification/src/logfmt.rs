//! The log formatting flag string: `+`/`-` set the polarity, `t`, `p`, `m`
//! and `l` switch the timestamp, path, module and level parts of each log
//! line on or off.

use vstd::prelude::*;

use crate::escape::chars_to_string;

verus! {

/// Which parts a log line carries.
#[derive(Debug, Clone, Copy, PartialEq, Eq, Structural)]
pub struct LogFormat {
    pub timestamp: bool,
    pub path: bool,
    pub module: bool,
    pub level: bool,
}

/// One flag string contained a character other than `+-tpml`.
#[derive(Debug, Clone, Copy, PartialEq, Eq, Structural)]
pub struct LogFormatError;

/// The format every run starts from: timestamp, module and level on, path
/// off.
pub open spec fn default_logfmt() -> LogFormat {
    LogFormat { timestamp: true, path: false, module: true, level: true }
}

impl Default for LogFormat {
    /// The default format: timestamp, module and level on, path off.
    fn default() -> (r: LogFormat)
        ensures
            r == default_logfmt(),
    {
        LogFormat { timestamp: true, path: false, module: true, level: true }
    }
}

/// The result of applying the flag characters of `s` to `cur`, with `value`
/// the current polarity; `None` on any unknown character.
pub open spec fn apply_logfmt(s: Seq<char>, cur: LogFormat, value: bool) -> Option<LogFormat>
    decreases s.len(),
{
    if s.len() == 0 {
        Some(cur)
    } else if s[0] == '+' {
        apply_logfmt(s.drop_first(), cur, true)
    } else if s[0] == '-' {
        apply_logfmt(s.drop_first(), cur, false)
    } else if s[0] == 't' {
        apply_logfmt(s.drop_first(), LogFormat { timestamp: value, ..cur }, value)
    } else if s[0] == 'p' {
        apply_logfmt(s.drop_first(), LogFormat { path: value, ..cur }, value)
    } else if s[0] == 'm' {
        apply_logfmt(s.drop_first(), LogFormat { module: value, ..cur }, value)
    } else if s[0] == 'l' {
        apply_logfmt(s.drop_first(), LogFormat { level: value, ..cur }, value)
    } else {
        None
    }
}

impl LogFormat {
    /// Parse a flag string, starting from the default format with positive
    /// polarity. Fails exactly on a character outside `+-tpml`.
    pub fn from_str(s: &str) -> (r: Result<LogFormat, LogFormatError>)
        ensures
            (match r {
                Ok(f) => apply_logfmt(s@, default_logfmt(), true) == Some(f),
                Err(_) => apply_logfmt(s@, default_logfmt(), true) is None,
            }),
    {
        let n = s.unicode_len();
        let mut cur = LogFormat { timestamp: true, path: false, module: true, level: true };
        let mut value = true;
        let mut i: usize = 0;
        proof {
            assert(s@.skip(0) =~= s@);
        }
        while i < n
            invariant
                n == s@.len(),
                i <= n,
                apply_logfmt(s@, default_logfmt(), true) == apply_logfmt(
                    s@.skip(i as int),
                    cur,
                    value,
                ),
            decreases n - i,
        {
            let ghost rest = s@.skip(i as int);
            proof {
                assert(rest[0] == s@[i as int]);
                assert(rest.drop_first() =~= s@.skip(i + 1));
            }
            let c = s.get_char(i);
            if c == '+' {
                value = true;
            } else if c == '-' {
                value = false;
            } else if c == 't' {
                cur.timestamp = value;
            } else if c == 'p' {
                cur.path = value;
            } else if c == 'm' {
                cur.module = value;
            } else if c == 'l' {
                cur.level = value;
            } else {
                return Err(LogFormatError);
            }
            i = i + 1;
        }
        proof {
            assert(s@.skip(n as int) =~= Seq::<char>::empty());
        }
        Ok(cur)
    }

    /// The flag string a format prints as: the enabled flags behind a `+`,
    /// the disabled ones behind a `-`, either part dropped when empty.
    pub open spec fn spec_flags_string(self) -> Seq<char> {
        let plus = seq!['+'] + (if self.timestamp {
            seq!['t']
        } else {
            Seq::<char>::empty()
        }) + (if self.path {
            seq!['p']
        } else {
            Seq::<char>::empty()
        }) + (if self.module {
            seq!['m']
        } else {
            Seq::<char>::empty()
        }) + (if self.level {
            seq!['l']
        } else {
            Seq::<char>::empty()
        });
        let minus = seq!['-'] + (if self.timestamp {
            Seq::<char>::empty()
        } else {
            seq!['t']
        }) + (if self.path {
            Seq::<char>::empty()
        } else {
            seq!['p']
        }) + (if self.module {
            Seq::<char>::empty()
        } else {
            seq!['m']
        }) + (if self.level {
            Seq::<char>::empty()
        } else {
            seq!['l']
        });
        (if plus.len() == 1 {
            Seq::<char>::empty()
        } else {
            plus
        }) + (if minus.len() == 1 {
            Seq::<char>::empty()
        } else {
            minus
        })
    }

    /// Render the flag string.
    #[verifier::rlimit(60)]
    pub fn flags_string(&self) -> (r: String)
        ensures
            r@ == self.spec_flags_string(),
    {
        let mut plus: Vec<char> = Vec::new();
        plus.push('+');
        let mut minus: Vec<char> = Vec::new();
        minus.push('-');
        if self.timestamp {
            plus.push('t');
        } else {
            minus.push('t');
        }
        if self.path {
            plus.push('p');
        } else {
            minus.push('p');
        }
        if self.module {
            plus.push('m');
        } else {
            minus.push('m');
        }
        if self.level {
            plus.push('l');
        } else {
            minus.push('l');
        }
        let mut out: Vec<char> = Vec::new();
        if plus.len() > 1 {
            let pn = plus.len();
            for i in 0..pn
                invariant
                    pn == plus@.len(),
                    out@ == plus@.take(i as int),
                {
                out.push(plus[i]);
                proof {
                    assert(out@ =~= plus@.take(i + 1));
                }
            }
            proof {
                assert(plus@.take(pn as int) =~= plus@);
            }
        }
        let ghost after_plus = out@;
        if minus.len() > 1 {
            let mn = minus.len();
            for i in 0..mn
                invariant
                    mn == minus@.len(),
                    out@ == after_plus + minus@.take(i as int),
                {
                out.push(minus[i]);
                proof {
                    assert(out@ =~= after_plus + minus@.take(i + 1));
                }
            }
            proof {
                assert(minus@.take(mn as int) =~= minus@);
            }
        }
        proof {
            assert(after_plus + Seq::<char>::empty() =~= after_plus);
            assert(out@ =~= self.spec_flags_string());
        }
        chars_to_string(&out)
    }
}

} // verus!
