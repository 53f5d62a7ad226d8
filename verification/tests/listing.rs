//! Filtering, sorting and rendering of whole listings.

use lsr::cli::run;
use lsr::list_item::{ListItem, Timestamp, MAX_TIMESTAMP_SECS, MIN_TIMESTAMP_SECS};
use lsr::listing::Listing;
use lsr::style::{Segment, Style};

fn ts() -> Timestamp {
    Timestamp { year: 2024, month: 1, day: 2, hour: 3, minute: 4 }
}

fn item(name: &str, size: u64, is_dir: bool, mode: u32) -> ListItem {
    ListItem::from_parts(name.to_string(), size, ts(), is_dir, mode)
}

fn scenario_entries() -> Vec<ListItem> {
    vec![
        item("a.txt", 500, false, 0o644),
        item(".hidden", 0, false, 0o644),
        item("sub", 0, true, 0o755),
    ]
}

fn names(l: &Listing) -> Vec<String> {
    l.sorted_entries.iter().map(|e| e.file_name.clone()).collect()
}

fn text_of(segs: &[Segment]) -> String {
    segs.iter().map(|s| s.text.clone()).collect()
}

#[test]
fn hidden_entries_excluded_by_default() {
    let mut l = Listing::new(".".to_string(), false, false, false, false, false, false);
    l.get_entries(scenario_entries());
    assert_eq!(names(&l), vec!["a.txt".to_string(), "sub".to_string()]);
}

#[test]
fn show_all_reintroduces_exactly_the_hidden() {
    let mut with_all = Listing::new(".".to_string(), false, true, false, false, false, false);
    with_all.get_entries(scenario_entries());
    assert_eq!(
        names(&with_all),
        vec![".hidden".to_string(), "a.txt".to_string(), "sub".to_string()]
    );
    let mut without = Listing::new(".".to_string(), false, false, false, false, false, false);
    without.get_entries(scenario_entries());
    let reintroduced: Vec<String> = names(&with_all)
        .into_iter()
        .filter(|n| !names(&without).contains(n))
        .collect();
    assert_eq!(reintroduced, vec![".hidden".to_string()]);
    assert!(reintroduced.iter().all(|n| n.starts_with('.')));
}

#[test]
fn sorted_by_ordinal_bytes() {
    let entries = vec![
        item("zeta", 1, false, 0o644),
        item("B.txt", 1, false, 0o644),
        item("a.txt", 1, false, 0o644),
        item("alpha", 1, true, 0o755),
    ];
    let mut l = Listing::new(".".to_string(), false, true, false, false, false, false);
    l.get_entries(entries);
    // Ordinal comparison puts the upper-case name first.
    assert_eq!(
        names(&l),
        vec![
            "B.txt".to_string(),
            "a.txt".to_string(),
            "alpha".to_string(),
            "zeta".to_string()
        ]
    );
    let got = names(&l);
    for w in got.windows(2) {
        assert!(w[0].as_bytes() < w[1].as_bytes());
    }
}

#[test]
fn listing_twice_is_identical() {
    let out1 = run(
        ".".to_string(),
        true,
        scenario_entries(),
        true,
        true,
        true,
        false,
        false,
        false,
    );
    let out2 = run(
        ".".to_string(),
        true,
        scenario_entries(),
        true,
        true,
        true,
        false,
        false,
        false,
    );
    assert_eq!(out1.len(), out2.len());
    for (a, b) in out1.iter().zip(out2.iter()) {
        assert_eq!(a.style, b.style);
        assert_eq!(a.text, b.text);
    }
}

#[test]
fn dirs_only_and_files_only_partition() {
    let entries = || {
        vec![
            item("d1", 0, true, 0o755),
            item("f1", 1, false, 0o644),
            item("d2", 0, true, 0o755),
            item("f2", 2, false, 0o644),
        ]
    };
    let mut dirs = Listing::new(".".to_string(), false, true, false, false, true, false);
    dirs.get_entries(entries());
    assert_eq!(names(&dirs), vec!["d1".to_string(), "d2".to_string()]);
    let mut files = Listing::new(".".to_string(), false, true, false, false, false, true);
    files.get_entries(entries());
    assert_eq!(names(&files), vec!["f1".to_string(), "f2".to_string()]);
    let mut neither = Listing::new(".".to_string(), false, true, false, false, false, false);
    neither.get_entries(entries());
    assert_eq!(names(&neither).len(), 4);
    assert_eq!(names(&dirs).len() + names(&files).len(), names(&neither).len());
    for n in names(&dirs) {
        assert!(!names(&files).contains(&n));
    }
}

#[test]
fn dirs_only_wins_when_both_set() {
    let entries = vec![item("d1", 0, true, 0o755), item("f1", 1, false, 0o644)];
    let mut l = Listing::new(".".to_string(), false, true, false, false, true, true);
    l.get_entries(entries);
    assert_eq!(names(&l), vec!["d1".to_string()]);
}

#[test]
fn compact_scenario_output() {
    let out = run(
        ".".to_string(),
        true,
        scenario_entries(),
        false,
        false,
        false,
        false,
        false,
        false,
    );
    assert_eq!(text_of(&out), "a.txt      sub        \n");
    // The directory name is the one bold-blue segment.
    let bold: Vec<&Segment> = out.iter().filter(|s| s.style == Style::BoldBlue).collect();
    assert_eq!(bold.len(), 1);
    assert_eq!(bold[0].text, "sub       ");
}

#[test]
fn long_scenario_output() {
    let out = run(
        ".".to_string(),
        true,
        scenario_entries(),
        false,
        false,
        true,
        false,
        false,
        false,
    );
    assert_eq!(
        text_of(&out),
        "rw-r--r-- 500B   01/02/24 03:04 a.txt      \n\
         rwxr-xr-x 0B     01/02/24 03:04 sub        \n"
    );
}

#[test]
fn single_column_output() {
    let out = run(
        ".".to_string(),
        true,
        scenario_entries(),
        false,
        false,
        false,
        true,
        false,
        false,
    );
    assert_eq!(text_of(&out), "a.txt      \nsub        \n");
}

#[test]
fn icon_segments() {
    let dir = item("sub", 0, true, 0o755);
    let seg = dir.display_icon();
    assert_eq!(seg.style, Style::Fg { red: 227, green: 177, blue: 77 });
    assert_eq!(seg.text, " \u{f74a} ");
    let file = item("a.txt", 1, false, 0o644);
    let seg = file.display_icon();
    assert_eq!(seg.style, Style::Fg { red: 65, green: 129, blue: 190 });
    assert_eq!(seg.text, " \u{f723} ");
}

#[test]
fn empty_directory_lists_nothing() {
    let out = run(
        ".".to_string(),
        true,
        Vec::new(),
        false,
        false,
        false,
        false,
        false,
        false,
    );
    // No entry lines: just the closing newline of the compact layout.
    assert_eq!(text_of(&out), "\n");
    let out = run(".".to_string(), true, Vec::new(), false, false, true, false, false, false);
    assert_eq!(out.len(), 0);
}

#[test]
fn non_directory_target_is_silent_success() {
    let out = run(
        "file.txt".to_string(),
        false,
        scenario_entries(),
        true,
        true,
        true,
        true,
        false,
        false,
    );
    assert_eq!(out.len(), 0);
}

#[test]
fn new_builds_local_timestamp() {
    let it = ListItem::new("a".to_string(), 1, 0, false, 0o644).expect("epoch converts");
    assert_eq!(it.file_name, "a");
    assert_eq!(it.size, 1);
    assert!(!it.is_dir);
    assert_eq!(it.mode, 0o644);
    let t = it.modified_date;
    assert!((1..=12).contains(&t.month));
    assert!((1..=31).contains(&t.day));
    assert!(t.hour <= 23);
    assert!(t.minute <= 59);
    assert!((1969..=1970).contains(&t.year));
}

#[test]
fn new_rejects_unrepresentable_timestamp() {
    assert!(ListItem::new("a".to_string(), 1, i64::MIN, false, 0o644).is_none());
    assert!(ListItem::new("a".to_string(), 1, i64::MAX, false, 0o644).is_none());
}

#[test]
fn new_succeeds_exactly_on_chronos_range() {
    assert!(ListItem::new("a".to_string(), 1, MIN_TIMESTAMP_SECS, false, 0o644).is_some());
    assert!(ListItem::new("a".to_string(), 1, MAX_TIMESTAMP_SECS, false, 0o644).is_some());
    assert!(ListItem::new("a".to_string(), 1, MIN_TIMESTAMP_SECS - 1, false, 0o644).is_none());
    assert!(ListItem::new("a".to_string(), 1, MAX_TIMESTAMP_SECS + 1, false, 0o644).is_none());
}
