//! Log routing for non-interactive runs: the daily log file name, the lines
//! written, rotation, and whether file logging is active.

use vstd::prelude::*;
use crate::text::{append_str, chars_of, string_from};

verus! {

/// Whether file logging has been switched on. Logging starts off and is
/// switched on once a log file is open.
pub struct LogState {
    active: bool,
}

/// Where one message goes.
pub enum LogWrite {
    /// Append this line to the log file.
    File(String),
    /// Write this line to stderr.
    Stderr(String),
}

impl LogState {
    /// Logging before initialisation: inactive.
    pub fn new() -> (s: Self)
        ensures
            !s.active_spec(),
    {
        LogState { active: false }
    }

    pub closed spec fn active_spec(&self) -> bool {
        self.active
    }

    /// Whether file logging is active.
    pub fn is_active(&self) -> (b: bool)
        ensures
            b == self.active_spec(),
    {
        self.active
    }

    /// Records one initialisation attempt: logging is switched on when it
    /// opened the log file, and a failed attempt leaves the state as it was.
    pub fn record_init(&mut self, opened: bool)
        ensures
            final(self).active_spec() == (old(self).active_spec() || opened),
    {
        if opened {
            self.active = true;
        }
    }

    /// Where a message goes: a timestamped line in the file when logging is
    /// active and the file is open, else the bare message on stderr.
    pub fn route(&self, file_open: bool, timestamp: &str, msg: &str) -> (w: LogWrite)
        ensures
            match w {
                LogWrite::File(l) => self.active_spec() && file_open && l@ == "["@ + timestamp@ + "] "@
                    + msg@ + "\n"@,
                LogWrite::Stderr(l) => !(self.active_spec() && file_open) && l@ == msg@ + "\n"@,
            },
    {
        if self.active && file_open {
            LogWrite::File(log_line(timestamp, msg))
        } else {
            let mut v = chars_of(msg);
            append_str(&mut v, "\n");
            LogWrite::Stderr(string_from(&v))
        }
    }
}

/// Whether some initialisation attempt among `outcomes` opened the log file.
pub open spec fn some_init_succeeded(outcomes: Seq<bool>) -> bool {
    exists|i: int| 0 <= i < outcomes.len() && outcomes[i]
}

/// Logging is active exactly when an earlier initialisation succeeded: for
/// states that start from `LogState::new` and go through `record_init` once
/// per attempt (`states[i + 1]` after attempt `i`, whose outcome is
/// `outcomes[i]`), the last state is active if and only if some attempt
/// opened the log file. In particular, before any attempt it is inactive.
pub proof fn lemma_active_iff_some_init_succeeded(states: Seq<LogState>, outcomes: Seq<bool>)
    requires
        states.len() == outcomes.len() + 1,
        !states[0].active_spec(),
        forall|i: int|
            0 <= i < outcomes.len() ==> #[trigger] states[i + 1].active_spec() == (
            states[i].active_spec() || outcomes[i]),
    ensures
        states.last().active_spec() == some_init_succeeded(outcomes),
    decreases outcomes.len(),
{
    if outcomes.len() > 0 {
        let n = outcomes.len() - 1;
        lemma_active_iff_some_init_succeeded(states.drop_last(), outcomes.drop_last());
        assert(states[n + 1].active_spec() == (states[n].active_spec() || outcomes[n]));
        if some_init_succeeded(outcomes) {
            let i = choose|i: int| 0 <= i < outcomes.len() && outcomes[i];
            if i < n {
                assert(outcomes.drop_last()[i]);
            }
        }
        if some_init_succeeded(outcomes.drop_last()) {
            let i = choose|i: int| 0 <= i < outcomes.drop_last().len() && outcomes.drop_last()[i];
            assert(outcomes[i]);
        }
    }
}

/// `[<timestamp>] <msg>` and a newline: one line of the log file.
pub fn log_line(timestamp: &str, msg: &str) -> (r: String)
    ensures
        r@ == "["@ + timestamp@ + "] "@ + msg@ + "\n"@,
{
    let mut v: Vec<char> = Vec::new();
    append_str(&mut v, "[");
    append_str(&mut v, timestamp);
    append_str(&mut v, "] ");
    append_str(&mut v, msg);
    append_str(&mut v, "\n");
    string_from(&v)
}

/// `<date>.log`, the log file of a day.
pub fn log_file_name(date: &str) -> (r: String)
    ensures
        r@ == date@ + ".log"@,
{
    let mut v = chars_of(date);
    append_str(&mut v, ".log");
    string_from(&v)
}

/// Seconds a log file is kept.
pub open spec fn log_retention_secs() -> u64 {
    604800
}

/// Whether a file in the log directory is removed by rotation: a `.log`
/// file last modified more than seven days ago (an unknown age keeps it).
pub fn should_remove_log(is_log_file: bool, age_secs: Option<u64>) -> (b: bool)
    ensures
        b == (is_log_file && match age_secs {
            Some(a) => a > log_retention_secs(),
            None => false,
        }),
{
    is_log_file && match age_secs {
        Some(a) => a > 604800,
        None => false,
    }
}

} // verus!
