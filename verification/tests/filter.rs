use snaps::filter::{path_components, should_ignore, should_ignore_components, PathComponent};

#[test]
fn test_root_level_exclusions() {
    assert!(should_ignore("/proc"));
    assert!(should_ignore("/sys"));
    assert!(!should_ignore("/etc"));
}

#[test]
fn root_level_rule_needs_the_root_as_parent() {
    assert!(should_ignore("/tmp"));
    assert!(should_ignore("//tmp/"));
    assert!(!should_ignore("/home/tmp"));
    assert!(!should_ignore("tmp"));
}

#[test]
fn listed_names_are_ignored_anywhere() {
    assert!(should_ignore("/home/theo/code/target"));
    assert!(should_ignore("/root/.cache"));
    assert!(should_ignore("relative/.cargo"));
    assert!(!should_ignore("/home/theo/target/src"));
}

#[test]
fn root_anchored_rules() {
    assert!(should_ignore("/var/snaps"));
    assert!(should_ignore("/var/snaps/snapshots/host"));
    assert!(should_ignore("/var/lib/pacman/local"));
    assert!(should_ignore("/home/theo/.rustup"));
    assert!(!should_ignore("/var/lib"));
    assert!(!should_ignore("/srv/var/log"));
}

#[test]
fn tail_anchored_rules() {
    assert!(should_ignore("/home/theo/.local/share/nvim"));
    assert!(should_ignore("/root/.config/chromium"));
    assert!(!should_ignore("/root/.config/chromium/Default"));
    assert!(!should_ignore("/home/theo/.local/share"));
}

#[test]
fn components_follow_std_normalisation() {
    let c = path_components("/a//b/./c/");
    assert_eq!(c.len(), 4);
    assert!(matches!(c[0], PathComponent::RootDir));
    assert!(matches!(&c[1], PathComponent::Normal(n) if n == "a"));
    assert!(matches!(&c[2], PathComponent::Normal(n) if n == "b"));
    assert!(matches!(&c[3], PathComponent::Normal(n) if n == "c"));

    let c = path_components("./x/../y");
    assert_eq!(c.len(), 4);
    assert!(matches!(c[0], PathComponent::CurDir));
    assert!(matches!(&c[1], PathComponent::Normal(n) if n == "x"));
    assert!(matches!(c[2], PathComponent::ParentDir));
    assert!(matches!(&c[3], PathComponent::Normal(n) if n == "y"));

    assert_eq!(path_components("").len(), 0);
    assert_eq!(path_components(".").len(), 1);
    assert!(matches!(path_components("a/.")[0], PathComponent::Normal(_)));
    assert_eq!(path_components("a/.").len(), 1);
}

#[test]
fn components_match_std() {
    for p in ["/", "/proc", "//x//y", "./a/./b/..", "a/b/", ".", "..", "x/./.", "/.hidden/.cache"] {
        let ours = path_components(p);
        let std_comps: Vec<std::path::Component> = std::path::Path::new(p).components().collect();
        assert_eq!(ours.len(), std_comps.len(), "{}", p);
        for (o, s) in ours.iter().zip(std_comps.iter()) {
            let same = match (o, s) {
                (PathComponent::RootDir, std::path::Component::RootDir) => true,
                (PathComponent::CurDir, std::path::Component::CurDir) => true,
                (PathComponent::ParentDir, std::path::Component::ParentDir) => true,
                (PathComponent::Normal(n), std::path::Component::Normal(m)) => m.to_str() == Some(n.as_str()),
                _ => false,
            };
            assert!(same, "{}", p);
        }
    }
}

#[test]
fn names_that_are_not_utf8_never_match() {
    let comps = vec![PathComponent::RootDir, PathComponent::NonUtf8];
    assert!(!should_ignore_components(&comps));
    let comps = vec![
        PathComponent::RootDir,
        PathComponent::Normal("var".to_string()),
        PathComponent::NonUtf8,
        PathComponent::Normal("snaps".to_string()),
    ];
    assert!(should_ignore_components(&comps));
}
