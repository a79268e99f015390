use std::collections::HashMap;

use snaps::error::Error;
use snaps::meta::{
    metadata_file_content, metadata_for_snapshots, parse_metadata_as_hashmap, parse_metadata_as_ordered_vec,
    parse_metadata_in_file_order, RetentionTag, SnapshotMetaData,
};

#[test]
fn tag_letters_and_names() {
    let all = RetentionTag::all();
    let letters: String = all.iter().map(|t| t.as_char()).collect();
    assert_eq!(letters, "uhdwma");
    let names: Vec<&str> = all.iter().map(|t| t.as_str()).collect();
    assert_eq!(names, vec!["untagged", "hourly", "daily", "weekly", "monthly", "adhoc"]);
    for t in all {
        assert_eq!(RetentionTag::from_name(t.as_str()).unwrap(), t);
        assert_eq!(RetentionTag::from_acronym(t.as_char()).unwrap(), t);
    }
    assert!(matches!(RetentionTag::from_name("Hourly"), Err(Error::UnknownTag(s)) if s == "Hourly"));
    assert!(matches!(RetentionTag::from_acronym('x'), Err(Error::UnknownTag(s)) if s == "x"));
    assert_eq!(RetentionTag::default(), RetentionTag::Untagged);
}

#[test]
fn tag_masks() {
    assert_eq!(RetentionTag::get_tags_mask(&[]), "------");
    assert_eq!(RetentionTag::get_tags_mask(&[RetentionTag::Adhoc, RetentionTag::Hourly]), "-h---a");
    assert_eq!(RetentionTag::get_tags_mask(&RetentionTag::all()), "uhdwma");
}

#[test]
fn metadata_entries() {
    let m = SnapshotMetaData::new(1700000000, vec![RetentionTag::Daily, RetentionTag::Weekly]).unwrap();
    assert_eq!(m.timestamp(), 1700000000);
    assert_eq!(m.tags(), &[RetentionTag::Daily, RetentionTag::Weekly]);
    assert!(m.contains_tag(&RetentionTag::Weekly));
    assert!(!m.contains_tag(&RetentionTag::Hourly));
    assert_eq!(m.entry_text(), "1700000000:daily,weekly;");
    assert!(matches!(
        SnapshotMetaData::new(1, vec![]),
        Err(Error::EmptyTag(s)) if s == "Unable to create snapshot metadata with empty tag"
    ));
}

#[test]
fn metadata_file_round_trip() {
    let entries = vec![
        SnapshotMetaData::new(5, vec![RetentionTag::Hourly]).unwrap(),
        SnapshotMetaData::new(9, vec![RetentionTag::Adhoc, RetentionTag::Monthly]).unwrap(),
        SnapshotMetaData::new(7, vec![RetentionTag::Untagged]).unwrap(),
    ];
    let text = metadata_file_content(&entries);
    assert_eq!(text, "5:hourly;\n9:adhoc,monthly;\n7:untagged;\n");
    let back = parse_metadata_in_file_order(&text).unwrap();
    assert_eq!(back, entries);
    let ordered = parse_metadata_as_ordered_vec(&text).unwrap();
    let order: Vec<u64> = ordered.iter().map(|m| m.timestamp()).collect();
    assert_eq!(order, vec![9, 7, 5]);
}

#[test]
fn metadata_file_reading() {
    let parsed = parse_metadata_in_file_order("  12:daily ;\n\n ;13;").unwrap();
    assert_eq!(parsed.len(), 2);
    assert_eq!(parsed[0].timestamp(), 12);
    assert_eq!(parsed[0].tags(), &[RetentionTag::Daily]);
    assert_eq!(parsed[1].timestamp(), 13);
    assert!(parsed[1].tags().is_empty());
    assert!(matches!(parse_metadata_in_file_order("x:daily;"), Err(Error::ParseInt(_))));
    // Without a `:`, the timestamp is read from the untrimmed piece.
    assert!(matches!(parse_metadata_in_file_order("12:daily; 13;"), Err(Error::ParseInt(_))));
    assert!(matches!(parse_metadata_in_file_order("1:daily,often;"), Err(Error::UnknownTag(s)) if s == "often"));
    assert!(matches!(parse_metadata_in_file_order("1:;"), Err(Error::UnknownTag(s)) if s == ""));
    assert!(matches!(parse_metadata_as_ordered_vec("1:hourly;2:x;"), Err(Error::UnknownTag(s)) if s == "x"));
    assert!(parse_metadata_in_file_order("").unwrap().is_empty());
}

#[test]
fn metadata_by_timestamp() {
    let map = parse_metadata_as_hashmap("1:hourly;2:daily;1:weekly;").unwrap();
    assert_eq!(map.len(), 2);
    assert_eq!(map[&1], vec![RetentionTag::Weekly]);
    assert_eq!(map[&2], vec![RetentionTag::Daily]);
    assert!(matches!(parse_metadata_as_hashmap("1:hourly;zz"), Err(Error::ParseInt(_))));
}

#[test]
fn metadata_for_snapshot_directories() {
    let mut map: HashMap<u64, Vec<RetentionTag>> = HashMap::new();
    map.insert(3, vec![RetentionTag::Monthly]);
    let v = metadata_for_snapshots(&[3, 2], &map).unwrap();
    assert_eq!(v[0].tags(), &[RetentionTag::Monthly]);
    assert_eq!(v[1].timestamp(), 2);
    assert_eq!(v[1].tags(), &[RetentionTag::Untagged]);
    map.insert(2, vec![]);
    assert!(matches!(metadata_for_snapshots(&[3, 2], &map), Err(Error::EmptyTag(_))));
}
