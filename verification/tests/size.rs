use snaps::size::{format_size, size_table_header, size_table_row, DirectorySizeWalk, EntryStat, GB, MB};

fn float_text(bytes: u64) -> String {
    if bytes >= GB {
        format!("{:.2} GB", bytes as f64 / GB as f64)
    } else if bytes >= MB {
        format!("{:.2} MB", bytes as f64 / MB as f64)
    } else {
        format!("{:.2} KB", bytes)
    }
}

#[test]
fn format_size_small_counts_are_shown_as_given() {
    assert_eq!(format_size(0), "0 KB");
    assert_eq!(format_size(512), "512 KB");
    assert_eq!(format_size(1048575), "1048575 KB");
}

#[test]
fn format_size_megabytes_and_gigabytes() {
    assert_eq!(format_size(1048576), "1.00 MB");
    assert_eq!(format_size(1572864), "1.50 MB");
    assert_eq!(format_size(1073741824), "1.00 GB");
    assert_eq!(format_size(5368709120), "5.00 GB");
    assert_eq!(format_size(u64::MAX), "17179869184.00 GB");
}

#[test]
fn format_size_rounds_ties_to_even() {
    // 1.125 MB and 1.375 MB are exact halves at the second decimal.
    assert_eq!(format_size(1179648), "1.12 MB");
    assert_eq!(format_size(1441792), "1.38 MB");
}

#[test]
fn format_size_agrees_with_float_formatting() {
    let mut samples: Vec<u64> = vec![
        1048576, 1048577, 1053818, 1059061, 1073741823, 1073741825, 1084479242, 1095216660,
        9007199254740992, 9007199254740993, 9007199254740995, 18014398509481985, 18014398509481987,
        u64::MAX - 1, u64::MAX, 123456789012345, 999999999999, 1 << 40, (1 << 40) + 5368709,
    ];
    let mut x: u64 = 0x9E3779B97F4A7C15;
    for _ in 0..5000 {
        x ^= x << 13;
        x ^= x >> 7;
        x ^= x << 17;
        samples.push(x);
        samples.push(x >> 20);
        samples.push(x >> 35);
        samples.push(x >> 44);
    }
    for k in 0..2000u64 {
        samples.push(MB + k * 5243);
        samples.push(GB + k * 5368709);
        samples.push(5242880 * k + 2621440);
    }
    for b in samples {
        assert_eq!(format_size(b), float_text(b), "{}", b);
    }
}

fn entry(is_file: bool, is_dir: bool, nlink: u64, dev: u64, ino: u64, len: u64, blocks: u64) -> EntryStat {
    EntryStat { is_symlink: false, is_file, is_dir, nlink, dev, ino, len, blocks }
}

#[test]
fn directory_walk_counts_hard_links_once() {
    let root = entry(false, true, 2, 1, 1, 4096, 8);
    let mut walk = DirectorySizeWalk::new(&root);
    assert!(walk.visit(&entry(false, true, 2, 1, 2, 4096, 8)));
    assert!(!walk.visit(&entry(true, false, 1, 1, 3, 100, 8)));
    assert!(!walk.visit(&entry(true, false, 2, 1, 4, 1000, 16)));
    assert!(!walk.visit(&entry(true, false, 2, 1, 4, 1000, 16)));
    assert!(!walk.visit(&entry(true, false, 2, 2, 4, 10, 8)));
    let link = EntryStat { is_symlink: true, is_file: false, is_dir: false, nlink: 1, dev: 1, ino: 9, len: 7, blocks: 0 };
    assert!(!walk.visit(&link));
    let sizes = walk.finish();
    assert_eq!(sizes.st_size(), 4096 + 4096 + 100 + 1000 + 10);
    assert_eq!(sizes.st_blocks(), 8 + 8 + 8 + 16 + 8);
    assert_eq!(sizes.shared_st_size(), 1010);
    assert_eq!(sizes.shared_st_blocks(), 24);
    assert_eq!(sizes.unique_bytes(), 24 * 512);
    assert_eq!(sizes.shared_bytes(), 24 * 512);
}

#[test]
fn directory_walk_reports_overflow_in_advance() {
    let root = entry(false, true, 2, 1, 1, u64::MAX - 10, 8);
    let walk = DirectorySizeWalk::new(&root);
    assert!(walk.fits(&entry(true, false, 1, 1, 2, 10, 8)));
    assert!(!walk.fits(&entry(true, false, 1, 1, 2, 11, 8)));
}

#[test]
fn directory_size_description() {
    let root = entry(false, true, 2, 1, 1, 2097152, 4096);
    let mut walk = DirectorySizeWalk::new(&root);
    walk.visit(&entry(true, false, 3, 7, 7, 1024, 2));
    let sizes = walk.finish();
    assert_eq!(
        sizes.describe(),
        "st_size: 2.00 MB, st_blocks: 2.00 MB, shared st_size: 1024 KB, shared st_blocks: 1024 KB\n"
    );
}

#[test]
fn size_table_lines() {
    assert_eq!(
        size_table_header(),
        format!("{:<12} | {:<20} | {:<10} | {:<10} | {:<10}\n", "Host", "Snapshot", "Unique", "Hard-link", "Total")
    );
    assert_eq!(
        size_table_row("arch-theo", "1700000000", 1048576, 1073741824),
        format!("{:<12} | {:<20} | {:<10} | {:<10} | {:<10}\n", "arch-theo", "1700000000", "1.00 MB", "1.00 GB", "1.00 GB")
    );
    assert_eq!(
        size_table_row("a-very-long-host-name", "x", 0, 0),
        format!("{:<12} | {:<20} | {:<10} | {:<10} | {:<10}\n", "a-very-long-host-name", "x", "0 KB", "0 KB", "0 KB")
    );
}
