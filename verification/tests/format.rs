//! Size formatting and permission decoding.

use lsr::list_item::{format_size, parse_permissions, time_string, triplet, Timestamp};

#[test]
fn bytes_render_plain() {
    for n in 0u64..1000 {
        assert_eq!(format_size(n), format!("{}B", n));
    }
}

#[test]
fn kilo_boundaries() {
    assert_eq!(format_size(1000), "1.0K");
    assert_eq!(format_size(999_499), "999.5K");
    assert_eq!(format_size(999_999), "1000.0K");
}

#[test]
fn epsilon_bias_rounds_down() {
    // In the one-digit range the tenths are truncated, not rounded up.
    assert_eq!(format_size(1_049), "1.0K");
    assert_eq!(format_size(1_050), "1.0K");
    assert_eq!(format_size(1_100), "1.1K");
    assert_eq!(format_size(1_999), "1.9K");
    assert_eq!(format_size(9_500_000), "9.5M");
    assert_eq!(format_size(9_949_999), "9.9M");
}

#[test]
fn suffix_tiers() {
    assert_eq!(format_size(950_000), "950.0K");
    assert_eq!(format_size(1_000_000), "1.0M");
    assert_eq!(format_size(2_500_000_000), "2.5G");
    assert_eq!(format_size(3_000_000_000_000), "3.0T");
    assert_eq!(format_size(4_000_000_000_000_000), "4.0P");
    assert_eq!(format_size(5_000_000_000_000_000_000), "5.0E");
    assert_eq!(format_size(u64::MAX), "18.4E");
}

fn expected_triplet(bits: u32) -> String {
    format!(
        "{}{}{}",
        if bits & 4 != 0 { "r" } else { "-" },
        if bits & 2 != 0 { "w" } else { "-" },
        if bits & 1 != 0 { "x" } else { "-" }
    )
}

#[test]
fn permissions_all_combinations() {
    for mode in 0u32..512 {
        let expect = format!(
            "{}{}{}",
            expected_triplet(mode >> 6),
            expected_triplet(mode >> 3),
            expected_triplet(mode)
        );
        assert_eq!(parse_permissions(mode), expect);
        // Higher-order bits (set-uid, sticky, file type) are ignored.
        assert_eq!(parse_permissions(mode | 0o7000), expect);
        assert_eq!(parse_permissions(mode | 0xFFFF_FE00), expect);
    }
}

#[test]
fn triplet_matches_table() {
    assert_eq!(triplet(0o644, 0o400, 0o200, 0o100), "rw-");
    assert_eq!(triplet(0o644, 0o040, 0o020, 0o010), "r--");
    assert_eq!(triplet(0o111, 0o004, 0o002, 0o001), "--x");
    assert_eq!(triplet(0, 0o400, 0o200, 0o100), "---");
    assert_eq!(triplet(0o777, 0o400, 0o200, 0o100), "rwx");
}

#[test]
fn time_renders_fixed_format() {
    let ts = Timestamp { year: 2024, month: 1, day: 2, hour: 3, minute: 4 };
    assert_eq!(time_string(ts), "01/02/24 03:04");
    let ts = Timestamp { year: 1999, month: 12, day: 31, hour: 23, minute: 59 };
    assert_eq!(time_string(ts), "12/31/99 23:59");
}
