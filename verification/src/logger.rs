//! Logging utilities: the severity names and syslog priorities each log
//! level maps to, and a logger holder whose back-end can be swapped out at
//! run time.

use vstd::prelude::*;

verus! {

/// A log level, ordered from most to least severe.
#[derive(Debug, Clone, Copy, PartialEq, Eq, Structural)]
pub enum LogLevel {
    Error,
    Warn,
    Info,
    Debug,
    Trace,
}

/// The logrus-compatible severity name of a level.
pub fn map_log_level(level: LogLevel) -> (r: &'static str)
    ensures
        level is Error ==> r@ == "error"@,
        level is Warn ==> r@ == "warning"@,
        level is Info ==> r@ == "info"@,
        level is Debug ==> r@ == "debug"@,
        level is Trace ==> r@ == "trace"@,
{
    match level {
        LogLevel::Error => "error",
        LogLevel::Warn => "warning",
        LogLevel::Info => "info",
        LogLevel::Debug => "debug",
        LogLevel::Trace => "trace",
    }
}

/// The syslog priority byte of a level: facility `user` (1) shifted left by
/// three, plus the severity (3 for errors through 7 for traces).
pub fn syslog_priority(level: LogLevel) -> (r: u8)
    ensures
        r == 8 + (match level {
            LogLevel::Error => 3u8,
            LogLevel::Warn => 4u8,
            LogLevel::Info => 5u8,
            LogLevel::Debug => 6u8,
            LogLevel::Trace => 7u8,
        }),
{
    let severity: u8 = match level {
        LogLevel::Error => 3,
        LogLevel::Warn => 4,
        LogLevel::Info => 5,
        LogLevel::Debug => 6,
        LogLevel::Trace => 7,
    };
    proof {
        assert(1u8 << 3 == 8) by (bit_vector);
        assert(8u8 | severity == 8 + severity) by (bit_vector)
            requires
                severity <= 7,
        ;
    }
    (1u8 << 3) | severity
}

/// A holder for the active logger back-end: the back-end can be replaced
/// while the holder stays in place.
#[derive(Debug)]
pub struct ReplaceableLogger<L> {
    logger: L,
}

impl<L> ReplaceableLogger<L> {
    /// The active back-end.
    pub closed spec fn spec_logger(self) -> L {
        self.logger
    }

    /// A holder over the given back-end.
    pub fn new(logger: L) -> (r: ReplaceableLogger<L>)
        ensures
            r.spec_logger() == logger,
    {
        ReplaceableLogger { logger }
    }

    /// Swap the back-end, handing the old one back so the caller can drop
    /// it outside any lock.
    pub fn replace(&mut self, logger: L) -> (r: L)
        ensures
            final(self).spec_logger() == logger,
            r == old(self).spec_logger(),
    {
        let mut swapped = logger;
        core::mem::swap(&mut self.logger, &mut swapped);
        swapped
    }

    /// Borrow the active back-end.
    pub fn get(&self) -> (r: &L)
        ensures
            *r == self.spec_logger(),
    {
        &self.logger
    }
}

} // verus!
