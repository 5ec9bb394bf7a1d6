use fast_check::args::{channel_capacity, parse_usize, parse_worker_count};

#[test]
fn numeric_argument_gives_that_count() {
    assert_eq!(parse_worker_count("4"), 4);
    assert_eq!(parse_worker_count("1"), 1);
    assert_eq!(parse_worker_count("64"), 64);
    assert_eq!(parse_worker_count("10"), 10);
}

#[test]
fn non_numeric_argument_falls_back_to_default() {
    // Worker-count argument "abc": the run proceeds with the default of 10.
    assert_eq!(parse_worker_count("abc"), 10);
    assert_eq!(parse_worker_count(""), 10);
    assert_eq!(parse_worker_count("1x"), 10);
    assert_eq!(parse_worker_count("-3"), 10);
    assert_eq!(parse_worker_count(" 7"), 10);
}

#[test]
fn leading_plus_sign_is_accepted_as_std_parses_it() {
    // usize::from_str takes one optional leading plus sign.
    assert_eq!(parse_worker_count("+5"), 5);
    assert_eq!(parse_worker_count("+0"), 1);
    assert_eq!(parse_worker_count("+"), 10);
    assert_eq!(parse_worker_count("++2"), 10);
    assert_eq!(parse_usize("+7"), Some(7));
    assert_eq!(parse_usize("+"), None);
}

#[test]
fn zero_is_clamped_to_one_worker() {
    assert_eq!(parse_worker_count("0"), 1);
    assert_eq!(parse_worker_count("000"), 1);
}

#[test]
fn leading_zeros_are_plain_decimal() {
    assert_eq!(parse_worker_count("007"), 7);
}

#[test]
fn overflowing_argument_falls_back_to_default() {
    // More than usize::MAX.
    assert_eq!(parse_worker_count("99999999999999999999999999"), 10);
}

#[test]
fn parse_usize_exact_values() {
    assert_eq!(parse_usize("0"), Some(0));
    assert_eq!(parse_usize("123"), Some(123));
    assert_eq!(parse_usize(""), None);
    assert_eq!(parse_usize("12a"), None);
    assert_eq!(parse_usize(&usize::MAX.to_string()), Some(usize::MAX));
    assert_eq!(parse_usize("18446744073709551616"), None);
}

#[test]
fn capacity_is_twice_the_worker_count() {
    assert_eq!(channel_capacity(1), 2);
    assert_eq!(channel_capacity(10), 20);
    assert_eq!(channel_capacity(usize::MAX), usize::MAX);
}
