use snaps::commands::list::{epoch_to_datetime, list_line, list_rows, ListRow, WEEK_IN_SECONDS};
use snaps::meta::{RetentionTag, SnapshotMetaData};

#[test]
fn epoch_to_datetime_values() {
    assert_eq!(epoch_to_datetime(0), (1970, 1, 1, 0, 0, 0));
    assert_eq!(epoch_to_datetime(86399), (1970, 1, 1, 23, 59, 59));
    assert_eq!(epoch_to_datetime(951782400), (2000, 2, 29, 0, 0, 0));
    assert_eq!(epoch_to_datetime(951868800), (2000, 3, 1, 0, 0, 0));
    assert_eq!(epoch_to_datetime(1700000000), (2023, 11, 14, 22, 13, 20));
    assert_eq!(epoch_to_datetime(1704067199), (2023, 12, 31, 23, 59, 59));
    assert_eq!(epoch_to_datetime(1704067200), (2024, 1, 1, 0, 0, 0));
    assert_eq!(epoch_to_datetime(4107542400), (2100, 3, 1, 0, 0, 0));
    assert_eq!(epoch_to_datetime(4107456000), (2100, 2, 28, 0, 0, 0));
}

#[test]
fn epoch_to_datetime_january_and_february() {
    // January and February belong to the following year in the March-based computation.
    assert_eq!(epoch_to_datetime(1706745600), (2024, 2, 1, 0, 0, 0));
    assert_eq!(epoch_to_datetime(1709164800), (2024, 2, 29, 0, 0, 0));
    assert_eq!(epoch_to_datetime(1675209600), (2023, 2, 1, 0, 0, 0));
}

fn meta(ts: u64, tags: Vec<RetentionTag>) -> SnapshotMetaData {
    SnapshotMetaData::new(ts, tags).unwrap()
}

#[test]
fn rows_select_by_tag_and_index() {
    let snapshots = vec![1700300000, 1700200000, 1700100000, 1700000000];
    let metadata = vec![
        meta(1700300000, vec![RetentionTag::Hourly]),
        meta(1700200000, vec![RetentionTag::Daily, RetentionTag::Weekly]),
        meta(1700100000, vec![RetentionTag::Untagged]),
        meta(1700000000, vec![RetentionTag::Monthly]),
    ];
    let rows = list_rows(&snapshots, &metadata, Some(vec![0, 3]), Some(vec![RetentionTag::Weekly]), Some(1700300000));
    assert_eq!(rows.len(), 4);
    let selected: Vec<bool> = rows.iter().map(|r| r.is_selected).collect();
    assert_eq!(selected, vec![true, true, false, true]);
    let latest: Vec<bool> = rows.iter().map(|r| r.is_latest).collect();
    assert_eq!(latest, vec![true, false, false, false]);
    assert_eq!(rows[1].tags_mask, "--dw--");
    assert_eq!(rows[2].tags_mask, "u-----");
    assert_eq!(rows[3].week, 1700000000 / WEEK_IN_SECONDS);
    assert_eq!(rows[0].datetime, epoch_to_datetime(1700300000));
    assert_eq!(rows[2].index, 2);
    assert_eq!(rows[3].timestamp, 1700000000);
}

#[test]
fn rows_combine_indexes_and_tags() {
    let snapshots = vec![2, 1];
    let metadata = vec![meta(2, vec![RetentionTag::Hourly]), meta(1, vec![RetentionTag::Daily])];
    let rows = list_rows(&snapshots, &metadata, Some(vec![0, 1]), Some(vec![RetentionTag::Hourly]), None);
    let selected: Vec<bool> = rows.iter().map(|r| r.is_selected).collect();
    assert_eq!(selected, vec![true, true]);
    let snapshots = vec![4, 3, 2, 1];
    let metadata = vec![
        meta(4, vec![RetentionTag::Weekly]),
        meta(3, vec![RetentionTag::Daily]),
        meta(2, vec![RetentionTag::Hourly]),
        meta(1, vec![RetentionTag::Hourly]),
    ];
    let rows = list_rows(&snapshots, &metadata, Some(vec![0, 2]), Some(vec![RetentionTag::Weekly, RetentionTag::Hourly]), None);
    let selected: Vec<bool> = rows.iter().map(|r| r.is_selected).collect();
    assert_eq!(selected, vec![true, false, true, true]);
}

#[test]
fn rows_with_unsorted_indexes_follow_the_cursor() {
    let snapshots = vec![3, 2, 1];
    let metadata = vec![meta(3, vec![RetentionTag::Hourly]), meta(2, vec![RetentionTag::Hourly]), meta(1, vec![RetentionTag::Hourly])];
    let rows = list_rows(&snapshots, &metadata, Some(vec![2, 0]), None, None);
    let selected: Vec<bool> = rows.iter().map(|r| r.is_selected).collect();
    assert_eq!(selected, vec![false, false, true]);
}

fn expected_line(hostname: &str, row: &ListRow) -> String {
    let (year, month, day, hour, min, sec) = row.datetime;
    let i = row.index;
    let tag_string = &row.tags_mask;
    let snapshot = row.timestamp;
    let prefix = if row.is_selected {
        format!("\x1b[{};{}m", "33", "44")
    } else if row.is_latest {
        format!("\x1b[{}m", "36")
    } else {
        String::new()
    };
    let latest_prefix = if row.is_latest { "[L]" } else { "" };
    let reset_code = if row.is_selected || row.is_latest { "\x1b[0m" } else { "" };
    format!(
        "{prefix}{hostname:<10} {tag_string:<6} {i:<3} {year:04}-{month:02}-{day:02} {hour:02}:{min:02}:{sec:02} {:<5} {snapshot} {latest_prefix} {reset_code}\n",
        row.week
    )
}

#[test]
fn list_lines_match_the_listing_format() {
    let base = ListRow {
        index: 7,
        timestamp: 1700000000,
        datetime: epoch_to_datetime(1700000000),
        tags_mask: "-h----".to_string(),
        week: 1700000000 / WEEK_IN_SECONDS,
        is_selected: false,
        is_latest: false,
    };
    assert_eq!(list_line("arch-theo", &base), expected_line("arch-theo", &base));
    assert_eq!(
        list_line("arch-theo", &base),
        "arch-theo  -h---- 7   2023-11-14 22:13:20 2810  1700000000  \n"
    );
    let selected = ListRow { is_selected: true, ..base };
    let selected_line = list_line("h", &selected);
    assert_eq!(selected_line, expected_line("h", &ListRow { is_selected: true, tags_mask: "-h----".to_string(), ..base_row() }));
    assert!(selected_line.starts_with("\x1b[33;44m"));
    let latest = ListRow { is_latest: true, tags_mask: "-h----".to_string(), ..base_row() };
    assert_eq!(list_line("a-long-hostname", &latest), expected_line("a-long-hostname", &latest));
    assert!(list_line("h", &latest).contains("[L]"));
    let far = ListRow { datetime: (-12, 3, 4, 5, 6, 7), ..base_row() };
    assert_eq!(list_line("h", &far), expected_line("h", &far));
}

fn base_row() -> ListRow {
    ListRow {
        index: 7,
        timestamp: 1700000000,
        datetime: epoch_to_datetime(1700000000),
        tags_mask: "-h----".to_string(),
        week: 1700000000 / WEEK_IN_SECONDS,
        is_selected: false,
        is_latest: false,
    }
}
