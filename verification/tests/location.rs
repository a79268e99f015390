use snaps::error::Error;
use snaps::location::{
    construct_snapshot_directory_name, get_host_location, get_hostname, get_latest_location, join_path,
    order_snapshot_entries, pending_snapshot_location, snapshot_timestamp, DirEntryInfo,
};

#[test]
fn join_follows_path_join() {
    for (a, b) in [("/var", "x"), ("/var/", "x"), ("", "x"), ("/var", "/etc"), ("/var", ""), ("a/b", "c/d")] {
        let expected = std::path::Path::new(a).join(b);
        assert_eq!(join_path(a, b), expected.to_str().unwrap(), "{} {}", a, b);
    }
}

#[test]
fn host_locations() {
    assert_eq!(get_hostname("  arch-theo\n"), "arch-theo");
    assert_eq!(get_host_location("arch-theo\n"), "/var/snaps/snapshots/arch-theo");
    assert_eq!(get_latest_location("arch-theo\n"), "/var/snaps/snapshots/arch-theo/latest");
    assert_eq!(
        construct_snapshot_directory_name("arch-theo\n", 1700000000),
        "/var/snaps/snapshots/arch-theo/1700000000"
    );
    assert_eq!(
        pending_snapshot_location("arch-theo\n", 42),
        "/var/snaps/snapshots/arch-theo/.pending/42"
    );
    assert_eq!(get_latest_location("\n"), "/var/snaps/snapshots/latest");
}

fn dir(name: &str) -> DirEntryInfo {
    DirEntryInfo { is_dir: true, name: Some(name.to_string()) }
}

#[test]
fn snapshot_entries_newest_first() {
    let entries = vec![
        dir("1700000000"),
        dir(".pending"),
        DirEntryInfo { is_dir: false, name: Some("latest".to_string()) },
        dir("1800000000"),
        DirEntryInfo { is_dir: true, name: None },
        dir("1600000000"),
        dir(".trash"),
        dir("1700000000"),
    ];
    let r = order_snapshot_entries(&entries).unwrap();
    assert_eq!(r, vec![1800000000, 1700000000, 1700000000, 1600000000]);
    assert_eq!(order_snapshot_entries(&[]).unwrap(), Vec::<u64>::new());
}

#[test]
fn snapshot_entry_that_is_not_a_timestamp() {
    let entries = vec![dir("1700000000"), dir("notes")];
    assert!(matches!(order_snapshot_entries(&entries), Err(Error::ParseInt(_))));
    let entries = vec![dir("-5")];
    assert!(matches!(order_snapshot_entries(&entries), Err(Error::ParseInt(_))));
}

#[test]
fn snapshot_names_as_timestamps() {
    assert_eq!(snapshot_timestamp("1700000000"), Some(1700000000));
    assert_eq!(snapshot_timestamp("+5"), Some(5));
    assert_eq!(snapshot_timestamp("18446744073709551615"), Some(u64::MAX));
    assert_eq!(snapshot_timestamp("18446744073709551616"), None);
    assert_eq!(snapshot_timestamp("latest"), None);
    assert_eq!(snapshot_timestamp(""), None);
}

#[test]
fn whitespace_is_unicode_white_space() {
    for c in ['\t', '\n', '\u{b}', '\u{c}', '\r', ' ', '\u{85}', '\u{a0}', '\u{1680}', '\u{2000}', '\u{200a}',
        '\u{2028}', '\u{2029}', '\u{202f}', '\u{205f}', '\u{3000}', 'a', '\u{200b}', '\u{feff}', '_', '\u{8}', '\u{e}'] {
        assert_eq!(snaps::text::char_is_whitespace(c), c.is_whitespace(), "{:?}", c);
    }
    for code in 0u32..0x3100 {
        if let Some(c) = char::from_u32(code) {
            assert_eq!(snaps::text::char_is_whitespace(c), c.is_whitespace(), "{:?}", c);
        }
    }
}
