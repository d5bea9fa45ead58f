use rusty_ircd::clock::{current_date, date_at, seconds_as_i64, unix_seconds};

#[test]
fn seconds_fit_an_i64_up_to_its_maximum() {
    assert_eq!(seconds_as_i64(0), Some(0));
    assert_eq!(seconds_as_i64(1_700_000_000), Some(1_700_000_000));
    assert_eq!(seconds_as_i64(i64::MAX as u64), Some(i64::MAX));
    assert_eq!(seconds_as_i64(i64::MAX as u64 + 1), None);
    assert_eq!(seconds_as_i64(u64::MAX), None);
}

#[test]
fn dates_in_rfc2822_text() {
    assert_eq!(date_at(Some(0)), "Thu, 1 Jan 1970 00:00:00 +0000");
    assert_eq!(date_at(Some(1_057_056_757)), "Tue, 1 Jul 2003 10:52:37 +0000");
    assert_eq!(date_at(Some(1_700_000_000)), "Tue, 14 Nov 2023 22:13:20 +0000");
    assert_eq!(date_at(None), "");
    assert_eq!(date_at(Some(i64::MAX)), "");
}

#[test]
fn the_clock_reads_after_1970() {
    let s = unix_seconds().unwrap();
    assert!(s > 1_700_000_000);
    let d = current_date();
    assert!(d.ends_with(" +0000"));
    assert!(d.len() >= 29);
}
