//! Execution timeouts and lock contention: what the process guard decides.
//! Times are in milliseconds.

use vstd::prelude::*;
use crate::num::parse_u64_spec;
use crate::text::chars_of;

verus! {

/// Default maximum execution time for long-running commands (90 minutes).
pub open spec fn default_timeout_ms() -> nat {
    90 * 60 * 1000
}

/// Floor for workload-scaled timeouts (one minute).
pub open spec fn scaled_floor_ms() -> nat {
    60 * 1000
}

/// Ceiling for workload-scaled timeouts (two hours).
pub open spec fn scaled_ceiling_ms() -> nat {
    2 * 60 * 60 * 1000
}

/// Per-file budget for workload scaling.
pub open spec fn per_file_budget_ms() -> nat {
    100
}

/// The timeout a `RECALL_TIMEOUT` value selects: `None` (unset) keeps the
/// default; a number of seconds wins, except that `0` disables the timeout;
/// anything else falls back to the default.
pub open spec fn resolve_timeout_spec(env_val: Option<Seq<char>>, default_ms: nat) -> Option<nat> {
    match env_val {
        None => Some(default_ms),
        Some(v) => match parse_u64_spec(v) {
            Some(secs) => if secs == 0 {
                None
            } else {
                Some(secs as nat * 1000)
            },
            None => Some(default_ms),
        },
    }
}

/// An optional millisecond count as a plain value.
pub open spec fn ms_view(r: Option<u128>) -> Option<nat> {
    match r {
        Some(x) => Some(x as nat),
        None => None,
    }
}

/// An optional string as a plain value.
pub open spec fn opt_str_view(v: Option<&str>) -> Option<Seq<char>> {
    match v {
        Some(x) => Some(x@),
        None => None,
    }
}

/// Timeout resolution from an optional `RECALL_TIMEOUT` value (seconds):
/// unset gives `default_ms`, `0` disables (`None`), a valid value wins, and an
/// invalid one gives `default_ms`.
pub fn resolve_timeout_from(env_val: Option<&str>, default_ms: u128) -> (r: Option<u128>)
    ensures
        ms_view(r) == resolve_timeout_spec(opt_str_view(env_val), default_ms as nat),
{
    match env_val {
        None => Some(default_ms),
        Some(v) => {
            let cs = chars_of(v);
            match crate::num::parse_u64(&cs) {
                Some(secs) => {
                    if secs == 0 {
                        None
                    } else {
                        Some(secs as u128 * 1000)
                    }
                },
                None => Some(default_ms),
            }
        },
    }
}

/// Whether a `RECALL_TIMEOUT` value is not a number of seconds (and so is
/// warned about before the default is used).
pub fn timeout_setting_invalid(env_val: &str) -> (b: bool)
    ensures
        b == (parse_u64_spec(env_val@) is None),
{
    let cs = chars_of(env_val);
    crate::num::parse_u64(&cs).is_none()
}

/// The workload-scaled timeout: one minute plus 100 ms per file, at most two
/// hours.
pub open spec fn scaled_timeout_spec(file_count: usize) -> nat {
    let t = scaled_floor_ms() + per_file_budget_ms() * (file_count as nat);
    if t < scaled_ceiling_ms() {
        t
    } else {
        scaled_ceiling_ms()
    }
}

/// Compute the workload-scaled timeout: `floor + per_file × count`, clamped to
/// the ceiling.
pub fn scaled_timeout(file_count: usize) -> (ms: u128)
    ensures
        ms == scaled_timeout_spec(file_count),
        scaled_floor_ms() <= ms <= scaled_ceiling_ms(),
{
    let n: u128 = file_count as u128;
    let t: u128 = 60_000 + 100 * n;
    if t < 7_200_000 {
        t
    } else {
        7_200_000
    }
}

/// The timeout to install for a command with the fixed default (90 min);
/// `None` when `RECALL_TIMEOUT=0` disables it.
pub fn install_timeout(env_val: Option<&str>) -> (r: Option<u128>)
    ensures
        ms_view(r) == resolve_timeout_spec(opt_str_view(env_val), default_timeout_ms()),
{
    resolve_timeout_from(env_val, 5_400_000)
}

/// The timeout to install for a workload of `file_count` files; the
/// `RECALL_TIMEOUT` setting still overrides.
pub fn install_timeout_scaled(file_count: usize, env_val: Option<&str>) -> (r: Option<u128>)
    ensures
        ms_view(r) == resolve_timeout_spec(opt_str_view(env_val), scaled_timeout_spec(file_count)),
{
    resolve_timeout_from(env_val, scaled_timeout(file_count))
}

// ─────────────────────────── lock contention ───────────────────────────

/// The kinds of I/O error that matter to lock contention.
#[derive(Debug, Clone, Copy, PartialEq, Eq, Structural)]
pub enum IoErrorClass {
    WouldBlock,
    PermissionDenied,
    Other,
}

/// Whether an I/O error of this class and raw OS code means the lock is held
/// elsewhere: `WouldBlock`, `PermissionDenied`, or the Windows sharing (32)
/// and lock (33) violations.
pub open spec fn benign_spec(kind: IoErrorClass, raw: Option<i32>) -> bool {
    kind == IoErrorClass::WouldBlock || kind == IoErrorClass::PermissionDenied || raw == Some(
        32i32,
    ) || raw == Some(33i32)
}

/// Whether a failed lock attempt, with an I/O error of this class and raw OS
/// code, means the lock is held elsewhere rather than a real I/O failure.
pub fn contention_is_benign(kind: IoErrorClass, raw_os_error: Option<i32>) -> (b: bool)
    ensures
        b == benign_spec(kind, raw_os_error),
{
    match kind {
        IoErrorClass::WouldBlock => true,
        IoErrorClass::PermissionDenied => true,
        IoErrorClass::Other => match raw_os_error {
            Some(code) => code == 32 || code == 33,
            None => false,
        },
    }
}

} // verus!
