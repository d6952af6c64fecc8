use qiz_first::{parse_interval, IntervalError, IntervalUnit};

#[test]
fn plain_counts_parse_with_each_unit() {
    assert_eq!(parse_interval("15m"), Ok((15, IntervalUnit::Minutes)));
    assert_eq!(parse_interval("4h"), Ok((4, IntervalUnit::Hours)));
    assert_eq!(parse_interval("1d"), Ok((1, IntervalUnit::Days)));
    assert_eq!(parse_interval("007m"), Ok((7, IntervalUnit::Minutes)));
}

#[test]
fn signed_counts_parse() {
    assert_eq!(parse_interval("+5h"), Ok((5, IntervalUnit::Hours)));
    assert_eq!(parse_interval("-3d"), Ok((-3, IntervalUnit::Days)));
}

#[test]
fn unknown_unit_letter_is_refused() {
    assert_eq!(parse_interval("5x"), Err(IntervalError::InvalidUnit));
    assert_eq!(parse_interval("5M"), Err(IntervalError::InvalidUnit));
}

#[test]
fn missing_or_malformed_count_is_refused() {
    assert_eq!(parse_interval("m"), Err(IntervalError::InvalidNumber));
    assert_eq!(parse_interval("-d"), Err(IntervalError::InvalidNumber));
    assert_eq!(parse_interval("1a2m"), Err(IntervalError::InvalidNumber));
    assert_eq!(parse_interval("--4h"), Err(IntervalError::InvalidNumber));
}

#[test]
fn counts_at_the_integer_limits() {
    assert_eq!(
        parse_interval("9223372036854775807m"),
        Ok((i64::MAX, IntervalUnit::Minutes))
    );
    assert_eq!(
        parse_interval("-9223372036854775808d"),
        Ok((i64::MIN, IntervalUnit::Days))
    );
    assert_eq!(
        parse_interval("9223372036854775808m"),
        Err(IntervalError::NumberOutOfRange)
    );
    assert_eq!(
        parse_interval("-99999999999999999999h"),
        Err(IntervalError::NumberOutOfRange)
    );
}
