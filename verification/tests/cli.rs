use snaps::cli::{argument_halt, parse_acronyms, parse_argument, parse_id, parse_items, Command};
use snaps::error::Error;
use snaps::meta::RetentionTag;

fn args(list: &[&str]) -> Vec<String> {
    let mut v = vec!["snaps".to_string()];
    v.extend(list.iter().map(|s| s.to_string()));
    v
}

fn parse(list: &[&str]) -> Result<Command, Error> {
    let a = args(list);
    assert!(argument_halt(&a).is_none());
    parse_argument(&a)
}

#[test]
fn index_lists() {
    assert_eq!(parse_items(None).unwrap(), Vec::<usize>::new());
    assert_eq!(parse_items(Some("1")).unwrap(), vec![1]);
    assert_eq!(parse_items(Some("1,3,4")).unwrap(), vec![1, 3, 4]);
    assert_eq!(parse_items(Some("1-5")).unwrap(), vec![1, 2, 3, 4, 5]);
    assert_eq!(parse_items(Some("7,2-3,0")).unwrap(), vec![7, 2, 3, 0]);
    assert!(matches!(parse_items(Some("1,x")), Err(Error::ParseInt(_))));
    assert!(matches!(parse_items(Some("1-")), Err(Error::ParseInt(_))));
    assert!(matches!(parse_items(Some("")), Err(Error::ParseInt(_))));
    assert!(matches!(parse_items(Some("1-2-3")), Err(Error::ParseInt(_))));
}

#[test]
fn acronym_lists() {
    assert_eq!(parse_acronyms(None).unwrap(), Vec::<RetentionTag>::new());
    assert_eq!(
        parse_acronyms(Some("u,h,d,w,m,a")).unwrap(),
        vec![
            RetentionTag::Untagged,
            RetentionTag::Hourly,
            RetentionTag::Daily,
            RetentionTag::Weekly,
            RetentionTag::Monthly,
            RetentionTag::Adhoc
        ]
    );
    assert!(matches!(parse_acronyms(Some("h,x")), Err(Error::UnknownTag(s)) if s == "x"));
    assert!(matches!(parse_acronyms(Some("hourly")), Err(Error::UnknownTag(s)) if s == "hourly"));
}

#[test]
fn ids() {
    assert_eq!(parse_id(Some("12")).unwrap(), 12);
    assert!(matches!(parse_id(Some("1x")), Err(Error::ParseInt(_))));
    assert!(matches!(parse_id(None), Err(Error::FromStrError(s)) if s == "Missing id value"));
}

#[test]
fn commands() {
    assert!(matches!(parse(&[]), Ok(Command::Help)));
    assert!(matches!(parse(&["-h"]), Ok(Command::Help)));
    assert!(matches!(parse(&["--version"]), Ok(Command::Version)));
    assert!(matches!(parse(&["take"]), Ok(Command::Take { tag: None })));
    assert!(matches!(parse(&["take", "--tag", "d"]), Ok(Command::Take { tag: Some(RetentionTag::Daily) })));
    assert!(matches!(parse(&["take", "--tag", "zz"]), Ok(Command::Take { tag: None })));
    assert!(matches!(parse(&["checkhealth", "--dump"]), Ok(Command::CheckHealth { dump: true })));
    match parse(&["list", "-si", "1-3", "-a", "h"]) {
        Ok(Command::List { size, indexes, acronyms }) => {
            assert!(size);
            assert_eq!(indexes, Some(vec![1, 2, 3]));
            assert_eq!(acronyms, Some(vec![RetentionTag::Hourly]));
        },
        other => panic!("{:?}", other),
    }
    match parse(&["list", "--remove", "-i", "2", "--force"]) {
        Ok(Command::Remove { indexes, acronyms, force }) => {
            assert_eq!(indexes, Some(vec![2]));
            assert_eq!(acronyms, Some(vec![]));
            assert!(force);
        },
        other => panic!("{:?}", other),
    }
    match parse(&["rm", "-a", "w,m"]) {
        Ok(Command::Remove { indexes, acronyms, force }) => {
            assert_eq!(indexes, Some(vec![]));
            assert_eq!(acronyms, Some(vec![RetentionTag::Weekly, RetentionTag::Monthly]));
            assert!(!force);
        },
        other => panic!("{:?}", other),
    }
    assert!(matches!(parse(&["list", "-i", "a"]), Err(Error::ParseInt(_))));
    assert!(matches!(parse(&["list", "-a", "q"]), Err(Error::UnknownTag(s)) if s == "q"));
}

#[test]
fn arguments_the_program_stops_on() {
    assert!(argument_halt(&args(&["-x"])).is_some());
    assert!(argument_halt(&args(&["--bogus"])).is_some());
    assert!(argument_halt(&args(&["restore"])).is_some());
    assert!(argument_halt(&args(&["list", "-i", "3-1"])).is_some());
    assert!(argument_halt(&args(&["list", "-i", "3-4"])).is_none());
    assert_eq!(argument_halt(&args(&["-sx"])).unwrap(), "not implemented: Invalid short argument: x");
    assert_eq!(argument_halt(&args(&["--nope"])).unwrap(), "not implemented: Invalid long argument: --nope");
    assert_eq!(argument_halt(&args(&["frobnicate"])).unwrap(), "not implemented: Unknown command: frobnicate");
    assert_eq!(argument_halt(&args(&["rm", "-i", "2-2"])).unwrap(), "assertion failed: start < end");
}
