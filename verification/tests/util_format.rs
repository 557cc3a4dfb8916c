use sdbatch::util::print_elapsed;

#[test]
fn less_than_a_minute() {
    // 49 seconds and 19 * 10000000 nanoseconds.
    assert_eq!(print_elapsed(49, 19 * 10000000), "49.190s");
}

#[test]
fn more_than_a_minute() {
    // 189 seconds and 12345 nanoseconds.
    assert_eq!(print_elapsed(189, 12345), "03:09");
}

#[test]
fn more_than_an_hour() {
    // 3 hours, 9 minutes, 12 seconds.
    assert_eq!(print_elapsed(60 * 60 * 3 + 60 * 9 + 12, 0), "03:09:12");
}

#[test]
fn under_ten_seconds() {
    assert_eq!(print_elapsed(5, 7_000_000), "5.7s");
}
