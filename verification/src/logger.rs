//! Logging facade: the level-filtering decision of a logger, kept as plain
//! data so a caller can inject it explicitly instead of relying on global
//! mutable state. Rendering and output stay with the caller.

use vstd::prelude::*;

verus! {

/// Verbosity of one message, or the cap of a logger: `Error` is the most
/// severe, `Trace` the most verbose.
#[derive(Clone, Copy, Debug, PartialEq, Eq, Structural)]
pub enum Level {
    Error,
    Warn,
    Info,
    Debug,
    Trace,
}

/// Verbosity rank of a level: `Error` is 1, `Trace` is 5. A message passes
/// a cap when its rank does not exceed the cap's rank.
pub open spec fn severity(l: Level) -> int {
    match l {
        Level::Error => 1,
        Level::Warn => 2,
        Level::Info => 3,
        Level::Debug => 4,
        Level::Trace => 5,
    }
}

/// A logger that accepts every message at or below a fixed verbosity cap.
pub struct Logger {
    level: Level,
}

impl Logger {
    /// The logger's verbosity cap.
    pub closed spec fn max_level(self) -> Level {
        self.level
    }

    /// A logger capped at `level`.
    pub fn new(level: Level) -> (r: Logger)
        ensures
            r.max_level() == level,
    {
        Logger { level }
    }

    /// Whether a message of verbosity `level` is printed by this logger.
    pub fn enabled(&self, level: Level) -> (r: bool)
        ensures
            r == (severity(level) <= severity(self.max_level())),
    {
        severity_rank(level) <= severity_rank(self.level)
    }
}

/// The executable verbosity rank.
fn severity_rank(l: Level) -> (r: u8)
    ensures
        r as int == severity(l),
{
    match l {
        Level::Error => 1,
        Level::Warn => 2,
        Level::Info => 3,
        Level::Debug => 4,
        Level::Trace => 5,
    }
}

} // verus!
