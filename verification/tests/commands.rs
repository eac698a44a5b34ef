use recall::commands::{decide, parse_duration, Decision};

#[test]
fn decide_yes_flag_always_proceeds() {
    // --yes short-circuits regardless of tty / answer.
    assert_eq!(decide(true, false, None), Decision::Proceed);
    assert_eq!(decide(true, true, None), Decision::Proceed);
    assert_eq!(decide(true, false, Some("n")), Decision::Proceed);
}

#[test]
fn decide_non_tty_without_yes_refuses() {
    assert_eq!(decide(false, false, None), Decision::RefuseNonInteractive);
}

#[test]
fn decide_tty_without_answer_needs_prompt() {
    assert_eq!(decide(false, true, None), Decision::NeedsPrompt);
}

#[test]
fn decide_affirmative_answer_proceeds() {
    assert_eq!(decide(false, true, Some("y")), Decision::Proceed);
    assert_eq!(decide(false, true, Some("yes")), Decision::Proceed);
    assert_eq!(decide(false, true, Some("YES")), Decision::Proceed);
    assert_eq!(decide(false, true, Some("  y  ")), Decision::Proceed);
}

#[test]
fn decide_negative_or_empty_answer_aborts() {
    assert_eq!(decide(false, true, Some("n")), Decision::Abort);
    assert_eq!(decide(false, true, Some("no")), Decision::Abort);
    assert_eq!(decide(false, true, Some("")), Decision::Abort); // bare Enter
    assert_eq!(decide(false, true, Some("garbage")), Decision::Abort);
}

#[test]
fn parse_duration_valid_units() {
    assert_eq!(parse_duration("30s"), Some(30));
    assert_eq!(parse_duration("5m"), Some(300));
    assert_eq!(parse_duration("2h"), Some(7200));
    assert_eq!(parse_duration("90d"), Some(90 * 86400));
    assert_eq!(parse_duration("4w"), Some(4 * 7 * 86400));
}

#[test]
fn parse_duration_trims_whitespace() {
    assert_eq!(parse_duration("  7d  "), Some(7 * 86400));
}

#[test]
fn parse_duration_rejects_non_positive() {
    assert_eq!(parse_duration("-5d"), None, "negative must be rejected");
    assert_eq!(parse_duration("0d"), None, "zero must be rejected");
    assert_eq!(parse_duration("-1h"), None);
}

#[test]
fn parse_duration_rejects_malformed() {
    assert_eq!(parse_duration(""), None);
    assert_eq!(parse_duration("d"), None, "no number");
    assert_eq!(parse_duration("10"), None, "no unit");
    assert_eq!(parse_duration("10x"), None, "unknown unit");
    assert_eq!(parse_duration("abcd"), None);
}

#[test]
fn parse_duration_multibyte_suffix_no_panic() {
    // A pasted multibyte trailing char must return None, never panic.
    assert_eq!(parse_duration("90ð"), None);
    assert_eq!(parse_duration("5€"), None);
    assert_eq!(parse_duration("日"), None);
}

#[test]
fn parse_duration_no_overflow_panic() {
    // Huge value × unit must not panic (checked multiplication → None).
    assert_eq!(parse_duration("9999999999999999999w"), None);
}

#[test]
fn parse_duration_largest_week_count_that_fits() {
    // i64::MAX / 604800 = 15250284452471 weeks fit; one more does not.
    assert_eq!(parse_duration("15250284452471w"), Some(15250284452471 * 604800));
    assert_eq!(parse_duration("15250284452472w"), None);
}

#[test]
fn parse_duration_accepts_plus_sign() {
    // `str::parse::<i64>` accepts a leading `+`.
    assert_eq!(parse_duration("+3h"), Some(10800));
}
