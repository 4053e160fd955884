use youkebox::duration::{duration_to_seconds, DurationError};

#[test]
fn parse_duration_hours_minutes_seconds() {
    assert_eq!(4210, duration_to_seconds("PT1H10M10S").unwrap());
}

#[test]
fn parse_duration_minutes_seconds() {
    assert_eq!(253, duration_to_seconds("PT4M13S").unwrap());
}

#[test]
fn parse_duration_zero() {
    assert_eq!(0, duration_to_seconds("PT0S").unwrap());
}

#[test]
fn parse_duration_empty_string() {
    assert_eq!(0, duration_to_seconds("").unwrap());
}

#[test]
fn parse_duration_bare_number_counts_as_seconds() {
    assert_eq!(42, duration_to_seconds("42").unwrap());
}

#[test]
fn parse_duration_seconds_only() {
    assert_eq!(59, duration_to_seconds("PT59S").unwrap());
}

#[test]
fn parse_duration_leading_zeroes() {
    assert_eq!(7, duration_to_seconds("PT0000007S").unwrap());
}

#[test]
fn parse_duration_long_video() {
    assert_eq!(36000, duration_to_seconds("PT10H0M0S").unwrap());
}

#[test]
fn parse_duration_weights_runs_from_the_right() {
    // Runs are weighted by their position from the right, not by their
    // designator letter: a lone run always counts as seconds.
    assert_eq!(10, duration_to_seconds("PT10H").unwrap());
}

#[test]
fn parse_duration_overflow_is_an_error() {
    let r = duration_to_seconds("PT99999999999999999999S");
    assert_eq!(r, Err(DurationError::Overflow));
}

#[test]
fn parse_duration_overflowing_run_weight_is_an_error() {
    // Thirteen numeric runs: the left-most weight alone exceeds the range.
    let r = duration_to_seconds("1a1a1a1a1a1a1a1a1a1a1a1a1a");
    assert_eq!(r, Err(DurationError::Overflow));
}
