use recall::guard::{
    contention_is_benign, install_timeout, install_timeout_scaled,
    resolve_timeout_from, scaled_timeout, IoErrorClass,
};

const SECOND_MS: u128 = 1000;

#[test]
fn resolve_timeout_none_uses_default() {
    assert_eq!(resolve_timeout_from(None, 42 * SECOND_MS), Some(42 * SECOND_MS));
}

#[test]
fn resolve_timeout_zero_disables() {
    assert_eq!(resolve_timeout_from(Some("0"), 42 * SECOND_MS), None);
}

#[test]
fn resolve_timeout_valid_wins() {
    assert_eq!(resolve_timeout_from(Some("300"), 42 * SECOND_MS), Some(300 * SECOND_MS));
}

#[test]
fn resolve_timeout_invalid_falls_back_to_default() {
    assert_eq!(resolve_timeout_from(Some("banana"), 42 * SECOND_MS), Some(42 * SECOND_MS));
    assert_eq!(resolve_timeout_from(Some("-5"), 42 * SECOND_MS), Some(42 * SECOND_MS));
}

#[test]
fn scaled_timeout_respects_floor() {
    // Zero files → floor (60 s).
    assert_eq!(scaled_timeout(0), 60 * SECOND_MS);
}

#[test]
fn scaled_timeout_scales_with_count() {
    // 100 files × 100ms = 10s, + 60s floor = 70s.
    assert_eq!(scaled_timeout(100), 70 * SECOND_MS);
}

#[test]
fn scaled_timeout_respects_ceiling() {
    // A huge count must clamp to the ceiling (2 h), not overflow.
    assert_eq!(scaled_timeout(usize::MAX), 7200 * SECOND_MS);
    assert_eq!(scaled_timeout(10_000_000), 7200 * SECOND_MS);
}

#[test]
fn scaled_timeout_clamps_counts_beyond_u32() {
    // 2^32 files: far past the ceiling, whatever the width of the count.
    assert_eq!(scaled_timeout(4_294_967_296), 7200 * SECOND_MS);
    assert_eq!(install_timeout_scaled(4_294_967_296, None), Some(7200 * SECOND_MS));
    // Just under the ceiling: 71 399 files give 60 s + 7139.9 s.
    assert_eq!(scaled_timeout(71_399), 7_199_900);
}

#[test]
fn install_timeouts_default_and_override() {
    assert_eq!(install_timeout(None), Some(90 * 60 * SECOND_MS));
    assert_eq!(install_timeout(Some("0")), None);
    assert_eq!(install_timeout(Some("15")), Some(15 * SECOND_MS));
    assert_eq!(install_timeout_scaled(100, None), Some(70 * SECOND_MS));
    assert_eq!(install_timeout_scaled(100, Some("5")), Some(5 * SECOND_MS));
}

/// The class and raw OS code of an I/O error, as the lock code reads them.
fn classify(e: &std::io::Error) -> (IoErrorClass, Option<i32>) {
    let class = match e.kind() {
        std::io::ErrorKind::WouldBlock => IoErrorClass::WouldBlock,
        std::io::ErrorKind::PermissionDenied => IoErrorClass::PermissionDenied,
        _ => IoErrorClass::Other,
    };
    (class, e.raw_os_error())
}

fn is_benign_contention(e: &std::io::Error) -> bool {
    let (class, raw) = classify(e);
    contention_is_benign(class, raw)
}

#[test]
fn benign_contention_wouldblock() {
    let e = std::io::Error::from(std::io::ErrorKind::WouldBlock);
    assert!(is_benign_contention(&e));
}

#[test]
fn benign_contention_permission_denied() {
    // Transient exclusive-open denial on the lockfile → treat as contention.
    let e = std::io::Error::from(std::io::ErrorKind::PermissionDenied);
    assert!(is_benign_contention(&e));
}

#[test]
fn benign_contention_windows_sharing_and_lock_violation() {
    // ERROR_SHARING_VIOLATION (32) and ERROR_LOCK_VIOLATION (33) are contention.
    assert!(is_benign_contention(&std::io::Error::from_raw_os_error(32)));
    assert!(is_benign_contention(&std::io::Error::from_raw_os_error(33)));
}

#[test]
fn benign_contention_rejects_real_io_errors() {
    // Genuine failures must still propagate as Err (not a graceful skip).
    assert!(!is_benign_contention(&std::io::Error::from(std::io::ErrorKind::NotFound)));
    // ERROR_DISK_FULL (112) is a real failure, not contention.
    assert!(!is_benign_contention(&std::io::Error::from_raw_os_error(112)));
}

#[test]
fn contention_classification_by_kind_and_code() {
    assert!(contention_is_benign(IoErrorClass::WouldBlock, None));
    assert!(contention_is_benign(IoErrorClass::Other, Some(33)));
    assert!(!contention_is_benign(IoErrorClass::Other, Some(5)));
    assert!(!contention_is_benign(IoErrorClass::Other, None));
}
