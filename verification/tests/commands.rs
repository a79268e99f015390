use snaps::commands::checkhealth::{
    broken_symlink_line, matched_line, metadata_incomplete_line, missing_snapshot_line, reconcile_snapshots,
    report_line, HealthReport,
};
use snaps::commands::remove::{metadata_after_removal, plan_removal, read_confirmation, RemovalStep};
use snaps::commands::take::{
    can_plan_copy, is_file_unchanged, plan_entry, plan_incremental_copy, EntryAction, FileStat, IncrementalCopyStatus,
    IncrementalCopyTracker,
};
use snaps::filter::path_components;
use snaps::meta::{RetentionTag, SnapshotMetaData};

#[test]
fn reconcile_newest_first_lists() {
    let r = reconcile_snapshots(&[9, 7, 5, 2], &[9, 8, 5, 1]);
    assert_eq!(
        r,
        vec![
            HealthReport::Matched(9),
            HealthReport::MetadataIncomplete(8),
            HealthReport::MissingSnapshot(7),
            HealthReport::Matched(5),
            HealthReport::MissingSnapshot(2),
            HealthReport::MetadataIncomplete(1),
        ]
    );
    assert!(reconcile_snapshots(&[], &[]).is_empty());
    assert_eq!(reconcile_snapshots(&[], &[3]), vec![HealthReport::MetadataIncomplete(3)]);
}

#[test]
fn health_lines() {
    assert_eq!(matched_line(12), "\x1B[38;5;29m12 -> Matched\x1B[0m\n");
    assert_eq!(metadata_incomplete_line(3), "\x1B[38;5;3m3 -> Metadata incomplete\x1B[0m\n");
    assert_eq!(missing_snapshot_line(4), "\x1B[38;5;3m4 -> Missing snapshot\x1B[0m\n");
    assert_eq!(broken_symlink_line(), "\x1B[38;5;3mBroken 'latest' symlink\x1B[0m\n");
    assert_eq!(report_line(&HealthReport::Matched(1)), matched_line(1));
}

fn meta(ts: u64, tag: RetentionTag) -> SnapshotMetaData {
    SnapshotMetaData::new(ts, vec![tag]).unwrap()
}

#[test]
fn removal_walks_from_the_oldest() {
    let snapshots = vec![40, 30, 20, 10];
    let metadata = vec![
        meta(40, RetentionTag::Hourly),
        meta(30, RetentionTag::Daily),
        meta(20, RetentionTag::Hourly),
        meta(10, RetentionTag::Weekly),
    ];
    let plan = plan_removal(&snapshots, &metadata, Some(vec![0, 1]), None, Some(40));
    assert_eq!(
        plan,
        vec![
            RemovalStep { index: 1, timestamp: 30, is_latest: false, preceding: Some(20) },
            RemovalStep { index: 0, timestamp: 40, is_latest: true, preceding: Some(20) },
        ]
    );
    let plan = plan_removal(&snapshots, &metadata, None, Some(vec![RetentionTag::Hourly]), Some(20));
    assert_eq!(
        plan,
        vec![
            RemovalStep { index: 2, timestamp: 20, is_latest: true, preceding: Some(10) },
            RemovalStep { index: 0, timestamp: 40, is_latest: false, preceding: Some(30) },
        ]
    );
    let plan = plan_removal(&snapshots, &metadata, Some(vec![3]), None, Some(10));
    assert_eq!(plan, vec![RemovalStep { index: 3, timestamp: 10, is_latest: true, preceding: None }]);
    assert!(plan_removal(&snapshots, &metadata, None, None, None).is_empty());
}

#[test]
fn removal_with_indexes_beyond_the_list() {
    // Indexes past the last snapshot are passed over before the oldest row is compared.
    let snapshots = vec![20, 10];
    let metadata = vec![meta(20, RetentionTag::Hourly), meta(10, RetentionTag::Hourly)];
    let plan = plan_removal(&snapshots, &metadata, Some(vec![1, 5, 6]), None, None);
    let chosen: Vec<usize> = plan.iter().map(|s| s.index).collect();
    assert_eq!(chosen, vec![1]);
    let plan = plan_removal(&snapshots, &metadata, Some(vec![0, 1]), None, None);
    let chosen: Vec<usize> = plan.iter().map(|s| s.index).collect();
    assert_eq!(chosen, vec![1, 0]);
}

#[test]
fn removal_combines_indexes_and_tags() {
    let snapshots = vec![20, 10];
    let metadata = vec![meta(20, RetentionTag::Hourly), meta(10, RetentionTag::Daily)];
    let plan = plan_removal(&snapshots, &metadata, Some(vec![0, 1]), Some(vec![RetentionTag::Daily]), Some(20));
    assert_eq!(
        plan,
        vec![
            RemovalStep { index: 1, timestamp: 10, is_latest: false, preceding: None },
            RemovalStep { index: 0, timestamp: 20, is_latest: true, preceding: None },
        ]
    );
    let snapshots = vec![40, 30, 20, 10];
    let metadata = vec![
        meta(40, RetentionTag::Hourly),
        meta(30, RetentionTag::Daily),
        meta(20, RetentionTag::Weekly),
        meta(10, RetentionTag::Hourly),
    ];
    let plan = plan_removal(&snapshots, &metadata, Some(vec![1, 2]), Some(vec![RetentionTag::Hourly]), None);
    let chosen: Vec<usize> = plan.iter().map(|s| s.index).collect();
    assert_eq!(chosen, vec![3, 2, 1, 0]);
}

#[test]
fn metadata_without_removed_entries() {
    let metadata = vec![meta(40, RetentionTag::Hourly), meta(30, RetentionTag::Daily), meta(20, RetentionTag::Weekly)];
    let (kept, rewrite) = metadata_after_removal(metadata, &[2, 0]);
    assert!(rewrite);
    let order: Vec<u64> = kept.iter().map(|m| m.timestamp()).collect();
    assert_eq!(order, vec![30]);
    let metadata = vec![meta(40, RetentionTag::Hourly)];
    let (kept, rewrite) = metadata_after_removal(metadata, &[]);
    assert!(!rewrite);
    assert_eq!(kept.len(), 1);
}

#[test]
fn confirmation_replies() {
    assert_eq!(read_confirmation("y\n"), Some(true));
    assert_eq!(read_confirmation("  Y "), Some(true));
    assert_eq!(read_confirmation("n\n"), Some(false));
    assert_eq!(read_confirmation("N"), Some(false));
    assert_eq!(read_confirmation("yes"), None);
    assert_eq!(read_confirmation(""), None);
    for reply in ["y", "Y\n", " n", "N", "yes", "no", "", "\n", "x"] {
        let t = reply.trim().to_lowercase();
        let expected = if t == "y" { Some(true) } else if t == "n" { Some(false) } else { None };
        assert_eq!(read_confirmation(reply), expected, "{:?}", reply);
    }
}

fn stat(len: u64, mtime: i64, blocks: u64) -> FileStat {
    FileStat { len, mtime, mtime_nsec: 0, mode: 0o644, uid: 1000, gid: 1000, blocks }
}

#[test]
fn hard_link_or_copy() {
    let source = stat(100, 5, 8);
    assert!(is_file_unchanged(&source, &stat(100, 5, 16)));
    assert!(!is_file_unchanged(&source, &stat(100, 6, 8)));
    assert_eq!(
        plan_incremental_copy(&source, Some(&stat(100, 5, 16))),
        IncrementalCopyStatus::Hardlinked { allocated_bytes: 16 * 512, apparent_bytes: 100 }
    );
    assert_eq!(
        plan_incremental_copy(&source, Some(&stat(99, 5, 16))),
        IncrementalCopyStatus::Copied { allocated_bytes: 8 * 512, apparent_bytes: 100, delta_bytes: 8 * 512 }
    );
    assert_eq!(
        plan_incremental_copy(&source, None),
        IncrementalCopyStatus::Copied { allocated_bytes: 4096, apparent_bytes: 100, delta_bytes: 4096 }
    );
}

#[test]
fn allocation_sizes_that_fit() {
    let source = stat(100, 5, u64::MAX / 512 + 1);
    let previous = stat(100, 5, 8);
    assert!(can_plan_copy(&source, Some(&previous)));
    assert!(!can_plan_copy(&source, None));
    assert!(!can_plan_copy(&source, Some(&stat(1, 5, 8))));
    assert_eq!(
        plan_incremental_copy(&source, Some(&previous)),
        IncrementalCopyStatus::Hardlinked { allocated_bytes: 4096, apparent_bytes: 100 }
    );
}

#[test]
fn tracker_totals() {
    let mut t = IncrementalCopyTracker::new();
    let copied = IncrementalCopyStatus::Copied { allocated_bytes: 4096, apparent_bytes: 100, delta_bytes: 4096 };
    let linked = IncrementalCopyStatus::Hardlinked { allocated_bytes: 1048576, apparent_bytes: 1048000 };
    t.record(&copied);
    t.record(&linked);
    assert_eq!(t.allocated_bytes(), 4096 + 1048576);
    assert_eq!(t.apparent_bytes(), 1048100);
    assert_eq!(t.delta_bytes(), 4096);
    t.increase_delta_bytes(4);
    assert_eq!(t.delta_bytes(), 4100);
    assert_eq!(
        t.sizes_report(),
        "\tAllocated size: 1.00 MB \n\tApparent size: 1048100 KB \n\tDelta size: 4100 KB"
    );
    let huge = IncrementalCopyStatus::Copied { allocated_bytes: u64::MAX, apparent_bytes: 0, delta_bytes: 0 };
    assert!(!t.can_record(&huge));
    assert!(t.can_record(&linked));
}

#[test]
fn entry_actions() {
    let home = path_components("/home/theo");
    let target = path_components("/home/theo/code/target");
    assert_eq!(plan_entry(true, true, false, &home), EntryAction::Skip);
    assert_eq!(plan_entry(false, true, false, &home), EntryAction::Descend);
    assert_eq!(plan_entry(false, true, false, &target), EntryAction::Skip);
    assert_eq!(plan_entry(false, false, true, &target), EntryAction::Copy);
    assert_eq!(plan_entry(false, false, false, &home), EntryAction::Skip);
}
