use triskelion::log::{format_with_commas, is_verbose, log_dir, timestamp};

#[test]
fn commas_stand_between_groups_of_three() {
    assert_eq!(format_with_commas(0), "0");
    assert_eq!(format_with_commas(999), "999");
    assert_eq!(format_with_commas(1000), "1,000");
    assert_eq!(format_with_commas(1234567), "1,234,567");
    assert_eq!(format_with_commas(u64::MAX), "18,446,744,073,709,551,615");
}

#[test]
fn stamp_has_two_digits_each() {
    assert_eq!(&timestamp(7, 5, 59), b"[07:05:59]");
    assert_eq!(&timestamp(23, 0, 60), b"[23:00:60]");
}

#[test]
fn any_flag_turns_diagnostics_on() {
    assert!(!is_verbose(false, false, false));
    assert!(is_verbose(true, false, false));
    assert!(is_verbose(false, true, false));
    assert!(is_verbose(false, false, true));
}

#[test]
fn log_directory_is_below_home() {
    assert_eq!(log_dir(Some("/home/a".to_string())), "/home/a/.cache/quark");
    assert_eq!(log_dir(Some("/home/a/".to_string())), "/home/a/.cache/quark");
    assert_eq!(log_dir(None), "/tmp/.cache/quark");
}
