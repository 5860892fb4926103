use std::time::Duration;

use haidomo::interval::Interval;
use haidomo::splits_file::RunData;
use haidomo::timestamp::{ExpandedTimestamp, Timestamp};

#[test]
fn title_and_subtitle_scenario() {
    let mut rund = RunData::new(b"UrMom".to_vec(), vec![]);
    rund.set_subtitle(&b"Any%".to_vec());
    assert_eq!(rund.get_name(), &b"UrMom:Any%".to_vec());
    assert_eq!(rund.get_title(), b"UrMom".to_vec());
    assert_eq!(rund.get_subtitle(), Some(b"Any%".to_vec()));

    rund.set_subtitle(&b"".to_vec());
    assert_eq!(rund.get_subtitle(), None);
    assert_eq!(rund.get_name(), &b"UrMom".to_vec());
}

#[test]
fn set_title_keeps_the_subtitle() {
    let mut rund = RunData::new(b"UrMom:Any%".to_vec(), vec![]);
    rund.set_title(&b"Dad".to_vec());
    assert_eq!(rund.get_name(), &b"Dad:Any%".to_vec());
    rund.set_subtitle(&b"100%".to_vec());
    assert_eq!(rund.get_name(), &b"Dad:100%".to_vec());
}

#[test]
fn bare_title_has_no_subtitle() {
    let rund = RunData::new(b"Solo".to_vec(), vec![]);
    assert_eq!(rund.get_title(), b"Solo".to_vec());
    assert_eq!(rund.get_subtitle(), None);
}

#[test]
fn separator_at_the_end_means_no_subtitle() {
    let rund = RunData::new(b"Name:".to_vec(), vec![]);
    assert_eq!(rund.get_title(), b"Name".to_vec());
    assert_eq!(rund.get_subtitle(), None);
}

#[test]
fn only_the_first_separator_counts() {
    let rund = RunData::new(b"a:b:c".to_vec(), vec![]);
    assert_eq!(rund.get_title(), b"a".to_vec());
    assert_eq!(rund.get_subtitle(), Some(b"b:c".to_vec()));
}

#[test]
fn add_split_appends_and_reports_the_new_count() {
    let mut rund = RunData::new(b"r".to_vec(), vec![b"one".to_vec()]);
    assert_eq!(rund.add_split(b"two".to_vec()), Ok(2));
    assert_eq!(rund.add_split(b"three".to_vec()), Ok(3));
    assert_eq!(rund.get_split_name(0), Some(&b"one".to_vec()));
    assert_eq!(rund.get_split_name(2), Some(&b"three".to_vec()));
    assert_eq!(rund.get_split_name(3), None);
}

#[test]
fn indexed_split_names_pair_each_name_with_its_slot() {
    let rund = RunData::new(
        b"r".to_vec(),
        vec![b"S1".to_vec(), b"S2".to_vec(), b"S3".to_vec()],
    );
    let indexed = rund.get_indexed_split_names();
    assert_eq!(indexed.len(), 3);
    assert_eq!(indexed[0], (0, b"S1".to_vec()));
    assert_eq!(indexed[1], (1, b"S2".to_vec()));
    assert_eq!(indexed[2], (2, b"S3".to_vec()));
}

#[test]
fn add_attempt_sums_the_split_durations() {
    let mut rund = RunData::new(b"r".to_vec(), vec![b"a".to_vec(), b"b".to_vec()]);
    rund.add_attempt(vec![
        Interval { secs: 1, nanos: 600_000_000 },
        Interval { secs: 2, nanos: 700_000_000 },
    ]);
    assert_eq!(rund.attempts.len(), 1);
    assert_eq!(
        rund.attempts[0].total_duration,
        Interval { secs: 4, nanos: 300_000_000 }
    );
    let expected_bits: Vec<u64> = vec![
        Duration::new(1, 600_000_000).as_secs_f64().to_bits(),
        Duration::new(2, 700_000_000).as_secs_f64().to_bits(),
    ];
    assert_eq!(rund.attempts[0].split_times, expected_bits);
}

// --- timestamps and their display text ---

#[test]
fn expanded_breaks_a_timestamp_down() {
    let t = Timestamp { seconds: 3 * 3600 + 25 * 60 + 7, subsecs: 482_000_001 };
    let e = t.expanded();
    assert_eq!(e.hours, 3);
    assert_eq!(e.minutes, 25);
    assert_eq!(e.seconds, 7);
    assert_eq!(e.milliseconds, 482);
}

#[test]
fn timestamp_duration_matches_the_standard_library() {
    let t = Timestamp { seconds: 12, subsecs: 345_678_901 };
    assert_eq!(t.duration(), Duration::new(12, 345_678_901));
    let back = Timestamp::from_duration(&Duration::new(12, 345_678_901));
    assert_eq!(back, t);
    assert_eq!(t.interval(), Interval { secs: 12, nanos: 345_678_901 });
}

#[test]
fn simple_text_hides_zero_hours() {
    let e = ExpandedTimestamp { hours: 0, minutes: 4, seconds: 9, milliseconds: 12 };
    assert_eq!(e.simple_text(), "04:09");
    assert_eq!(e.millis_text(), "012");
}

#[test]
fn simple_text_shows_nonzero_hours() {
    let e = ExpandedTimestamp { hours: 13, minutes: 59, seconds: 0, milliseconds: 999 };
    assert_eq!(e.simple_text(), "13:59:00");
    assert_eq!(e.millis_text(), "999");
}

#[test]
fn simple_text_does_not_cut_large_hours() {
    let e = ExpandedTimestamp { hours: 123, minutes: 5, seconds: 6, milliseconds: 7 };
    assert_eq!(e.simple_text(), "123:05:06");
    assert_eq!(e.millis_text(), "007");
}

// --- interval arithmetic ---

#[test]
fn interval_add_carries_the_nanoseconds() {
    let a = Interval { secs: 1, nanos: 999_999_999 };
    let b = Interval { secs: 0, nanos: 2 };
    assert_eq!(a.add(b), Interval { secs: 2, nanos: 1 });
}

#[test]
fn interval_sub_borrows_from_the_seconds() {
    let a = Interval { secs: 5, nanos: 100_000_000 };
    let b = Interval { secs: 2, nanos: 600_000_000 };
    assert_eq!(a.sub(b), Interval { secs: 2, nanos: 500_000_000 });
}

#[test]
fn interval_saturating_add_clamps_at_the_top() {
    let a = Interval { secs: u64::MAX, nanos: 999_999_998 };
    let b = Interval { secs: 0, nanos: 5 };
    assert_eq!(
        a.saturating_add(b),
        Interval { secs: u64::MAX, nanos: 999_999_999 }
    );
    let small = Interval { secs: 1, nanos: 2 }.saturating_add(Interval { secs: 3, nanos: 4 });
    assert_eq!(small, Interval { secs: 4, nanos: 6 });
}

#[test]
fn interval_comparisons() {
    let a = Interval { secs: 1, nanos: 2 };
    let b = Interval { secs: 1, nanos: 3 };
    assert!(a.le(&b));
    assert!(!b.le(&a));
    assert!(a.le(&a));
    assert!(Interval::zero().is_zero());
    assert!(!a.is_zero());
}
