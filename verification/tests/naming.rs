//! Path helpers, collision-free naming, and address validation.

use rv_raven::config::Config;
use rv_raven::text::u64_to_dec_string;
use rv_raven::timestamp::{now_utc, render_timestamp, Timestamp};
use rv_raven::util::{basename, is_ipv4_address, non_colliding_filename};

#[test]
fn test_name_collision() {
    // Some example files.
    let files = vec![
        "/tmp/file.txt".to_string(),
        "/tmp/file_1.txt".to_string(),
        "/tmp/file.txt.gz".to_string(),
        "/tmp/file_3.txt".to_string(),
    ];
    let non_colliding = files
        .iter()
        .map(|file| non_colliding_filename(file, &files))
        .collect::<Vec<String>>();
    non_colliding.iter().for_each(|file| {
        assert!(
            !files.contains(file),
            "The file `{}` is colliding with the original files",
            file
        );
    });
}

#[test]
fn free_names_come_back_unchanged() {
    let existing = vec!["/a/b.txt".to_string()];
    assert_eq!(non_colliding_filename("/a/c.txt", &existing), "/a/c.txt");
}

#[test]
fn taken_names_get_the_first_free_step() {
    let existing = vec![
        "/tmp/file.txt".to_string(),
        "/tmp/file_1.txt".to_string(),
        "/tmp/file_3.txt".to_string(),
    ];
    assert_eq!(non_colliding_filename("/tmp/file.txt", &existing), "/tmp/file_2.txt");
}

#[test]
fn growing_sets_never_reuse_a_name() {
    let mut existing = vec!["d/n.txt".to_string()];
    let mut seen = vec!["d/n.txt".to_string()];
    for _ in 0..5 {
        let fresh = non_colliding_filename("d/n.txt", &existing);
        assert!(!seen.contains(&fresh));
        seen.push(fresh.clone());
        existing.push(fresh);
    }
}

#[test]
fn names_without_extension_or_directory() {
    let existing = vec!["notes".to_string()];
    assert_eq!(non_colliding_filename("notes", &existing), "notes_1.");
}

#[test]
fn basename_takes_what_follows_the_last_slash() {
    assert_eq!(basename("/home/u/notes.txt"), "notes.txt");
    assert_eq!(basename("a/b/c"), "c");
    assert_eq!(basename("plain"), "plain");
    assert_eq!(basename("dir/"), "");
}

#[test]
fn well_formed_addresses_are_accepted() {
    assert!(is_ipv4_address("127.0.0.1"));
    assert!(is_ipv4_address("0.0.0.0"));
    assert!(is_ipv4_address("255.255.255.255"));
    assert!(is_ipv4_address("192.168.0.7"));
}

#[test]
fn malformed_addresses_are_rejected() {
    assert!(!is_ipv4_address(""));
    assert!(!is_ipv4_address("1.2.3"));
    assert!(!is_ipv4_address("1.2.3.4.5"));
    assert!(!is_ipv4_address("256.0.0.1"));
    assert!(!is_ipv4_address("01.2.3.4"));
    assert!(!is_ipv4_address("1.2.3.x"));
    assert!(!is_ipv4_address("1..2.3"));
    assert!(!is_ipv4_address("1.2.3.4 "));
    assert!(!is_ipv4_address("localhost"));
}

#[test]
fn decimal_rendering_is_exact() {
    assert_eq!(u64_to_dec_string(0), "0");
    assert_eq!(u64_to_dec_string(7), "7");
    assert_eq!(u64_to_dec_string(255), "255");
    assert_eq!(u64_to_dec_string(1000), "1000");
    assert_eq!(u64_to_dec_string(u64::MAX), "18446744073709551615");
}

#[test]
fn timestamps_render_zero_padded() {
    let t = Timestamp { year: 2024, month: 5, day: 1, hour: 12, minute: 30, second: 0 };
    assert_eq!(render_timestamp(&t), "2024-05-01T12:30:00");
    let t = Timestamp { year: 987, month: 12, day: 31, hour: 0, minute: 0, second: 59 };
    assert_eq!(render_timestamp(&t), "0987-12-31T00:00:59");
}

#[test]
fn the_clock_reads_a_calendar_time() {
    let t = now_utc();
    assert!((1..=12).contains(&t.month));
    assert!((1..=31).contains(&t.day));
    assert!(t.hour <= 23);
    assert!(t.minute <= 59);
    assert!(t.second <= 59);
    assert!(t.year >= 2024);
}

#[test]
fn new_configurations_take_the_defaults() {
    let c = Config::new("/home/u/.raven".to_string());
    assert_eq!(c.raven_home, "/home/u/.raven");
    assert_eq!(c.receiver.address, "0.0.0.0");
    assert_eq!(c.receiver.port, 12345);
    assert_eq!(c.local.address, "0.0.0.0");
    assert_eq!(c.local.port, 23455);
}
