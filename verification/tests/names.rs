use snaps::error::Error;
use snaps::name::SnapshotName;
use snaps::tags::SnapshotTag;

#[test]
fn test_valid_tags() {
    assert_eq!(SnapshotTag::parse("u").unwrap(), SnapshotTag::Untagged);
    assert_eq!(SnapshotTag::parse("h").unwrap(), SnapshotTag::Hourly);
    assert_eq!(SnapshotTag::parse("d").unwrap(), SnapshotTag::Daily);
    assert_eq!(SnapshotTag::parse("w").unwrap(), SnapshotTag::Weekly);
    assert_eq!(SnapshotTag::parse("a1").unwrap(), SnapshotTag::Adhoc('1'));
    assert_eq!(SnapshotTag::parse("aa").unwrap(), SnapshotTag::Adhoc('a'));
    assert_eq!(SnapshotTag::parse("aé").unwrap(), SnapshotTag::Adhoc('é'));
}

#[test]
fn test_invalid_tags() {
    assert!(matches!(SnapshotTag::parse("a42"), Err(Error::UnknownTag(s)) if s == "a42"));
    assert!(matches!(SnapshotTag::parse(""), Err(Error::EmptyTag(s)) if s == "Unable to parse an empty snapshot tag"));
    assert!(matches!(SnapshotTag::parse("hourly"), Err(Error::UnknownTag(s)) if s == "hourly"));
    assert!(matches!(SnapshotTag::parse("a"), Err(Error::UnknownTag(s)) if s == "a"));
    assert!(matches!(SnapshotTag::parse("a "), Err(Error::UnknownTag(s)) if s == "a "));
    assert!(matches!(SnapshotTag::parse("a_"), Err(Error::UnknownTag(s)) if s == "a_"));
    for c in (0u8..128).map(char::from) {
        let text = format!("a{}", c);
        assert_eq!(SnapshotTag::parse(&text).is_ok(), c.is_ascii_alphanumeric(), "{:?}", c);
    }
}

#[test]
fn tag_labels_and_masks() {
    assert_eq!(SnapshotTag::Adhoc('x').label(), "ax");
    assert_eq!(SnapshotTag::Weekly.label(), "w");
    assert_eq!(SnapshotTag::Untagged.get_tag_mask(), "u----");
    assert_eq!(SnapshotTag::Daily.get_tag_mask(), "--d--");
    assert_eq!(SnapshotTag::Adhoc('z').get_tag_mask(), "----a");
    assert_eq!(SnapshotTag::default(), SnapshotTag::Untagged);
}

#[test]
fn snapshot_names() {
    let n = SnapshotName::new(1700000000, Some(SnapshotTag::Hourly));
    assert_eq!(n.timestamp(), 1700000000);
    assert_eq!(n.tag(), Some(SnapshotTag::Hourly));
    assert_eq!(n.to_text(), "1700000000_h");
    assert_eq!(SnapshotName::new(5, None).to_text(), "5_u");
    let back = SnapshotName::from_str(&SnapshotName::new(42, Some(SnapshotTag::Adhoc('q'))).to_text()).unwrap();
    assert_eq!(back.timestamp(), 42);
    assert_eq!(back.tag(), Some(SnapshotTag::Adhoc('q')));
    let plain = SnapshotName::from_str("77").unwrap();
    assert_eq!(plain.timestamp(), 77);
    assert_eq!(plain.tag(), None);
    assert!(matches!(SnapshotName::from_str("77_x"), Err(Error::UnknownTag(s)) if s == "x"));
    assert!(matches!(SnapshotName::from_str("7x_h"), Err(Error::ParseInt(_))));
    assert!(matches!(SnapshotName::from_str("7_"), Err(Error::EmptyTag(_))));
    assert!(matches!(SnapshotName::from_str("1_2_d"), Err(Error::ParseInt(_))));
}
