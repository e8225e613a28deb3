use yurizaki::anime::{EpisodeType, Release};
use yurizaki::classify::{
    check_file, check_release, decide, find_existing_release, should_recopy, sibling_releases, Admission,
    Decision, ExistingRelease, Sibling,
};
use yurizaki::config::{ConfigValue, Configuration, Rule, RuleMinimum};
use yurizaki::pipeline::{action_for_event, apply_reload, reload, ActionCategory, EventKind};
use yurizaki::config::Error;

fn release(group: &str, episode: &str, version: i32, kind: EpisodeType) -> Release {
    Release {
        title: "Show".to_string(),
        group: group.to_string(),
        episode: episode.to_string(),
        version,
        episode_type: kind,
    }
}

fn ep(group: &str, episode: &str) -> Release {
    release(group, episode, 1, EpisodeType::Episode)
}

fn show_rule(groups: &[&str]) -> Rule {
    Rule {
        groups: groups.iter().map(|g| g.to_string()).collect(),
        title: "Show".to_string(),
        minimum: RuleMinimum { episode_number: None },
    }
}

fn sibling(name: &str, r: Release) -> Sibling {
    Sibling { name: name.to_string(), release: Some(r) }
}

fn config(groups: &[&str], minimum: Option<i64>) -> Configuration {
    let text = |v: &str| ConfigValue::Text(v.to_string());
    let mut rule = vec![(text("groups"), ConfigValue::List(groups.iter().map(|g| text(g)).collect()))];
    if let Some(m) = minimum {
        rule.push((text("minimum"), ConfigValue::Mapping(vec![(text("episode"), ConfigValue::Integer(m))])));
    }
    let doc = ConfigValue::Mapping(vec![
        (text("source"), text("/in")),
        (text("library"), text("/lib")),
        (text("Show"), ConfigValue::Mapping(rule)),
    ]);
    Configuration::new(&vec![doc]).unwrap()
}

#[test]
fn recopy_unless_sizes_match() {
    assert!(!should_recopy(Some(10), Some(10)));
    assert!(should_recopy(Some(10), Some(11)));
    assert!(should_recopy(None, Some(10)));
    assert!(should_recopy(Some(10), None));
    assert!(should_recopy(None, None));
}

#[test]
fn scenario_group_priority_sequence() {
    let rule = show_rule(&["GroupA", "GroupB"]);
    let b_name = "Show - 01 [GroupB].mkv";
    let a_name = "Show - 01 [GroupA].mkv";
    let first = decide(&ep("GroupB", "01"), &rule, Some(100), None, &vec![]);
    assert_eq!(first, Decision::Copy);
    let second = decide(&ep("GroupA", "01"), &rule, Some(100), None, &vec![sibling(b_name, ep("GroupB", "01"))]);
    assert_eq!(second, Decision::Replace(b_name.to_string()));
    let third = decide(&ep("GroupB", "01"), &rule, Some(100), None, &vec![sibling(a_name, ep("GroupA", "01"))]);
    assert_eq!(third, Decision::SkipSuperiorExists(a_name.to_string()));
}

#[test]
fn lowest_group_skipped_when_highest_present() {
    let rule = show_rule(&["A", "B", "C"]);
    let d = decide(&ep("C", "05"), &rule, Some(1), None, &vec![sibling("a", ep("A", "05"))]);
    assert_eq!(d, Decision::SkipSuperiorExists("a".to_string()));
    let d = decide(&ep("A", "05"), &rule, Some(1), None, &vec![sibling("c", ep("C", "05"))]);
    assert_eq!(d, Decision::Replace("c".to_string()));
}

#[test]
fn higher_version_wins_in_either_order() {
    let rule = show_rule(&["A"]);
    let v1 = release("A", "02", 1, EpisodeType::Episode);
    let v2 = release("A", "02", 2, EpisodeType::Episode);
    assert_eq!(find_existing_release(&v1, &rule, &vec![sibling("v2", v2)]), Some(ExistingRelease::Superior("v2".to_string())));
    let v1 = release("A", "02", 1, EpisodeType::Episode);
    let v2 = release("A", "02", 2, EpisodeType::Episode);
    assert_eq!(find_existing_release(&v2, &rule, &vec![sibling("v1", v1)]), Some(ExistingRelease::Inferior("v1".to_string())));
}

#[test]
fn different_types_and_episodes_do_not_conflict() {
    let rule = show_rule(&["A", "B"]);
    let sibs = vec![
        sibling("ova", release("A", "01", 1, EpisodeType::OVA)),
        sibling("ep2", ep("A", "02")),
        sibling("other", ep("Unlisted", "01")),
        Sibling { name: "junk".to_string(), release: None },
    ];
    assert_eq!(find_existing_release(&ep("B", "01"), &rule, &sibs), None);
    assert_eq!(decide(&ep("B", "01"), &rule, Some(3), None, &sibs), Decision::Copy);
}

#[test]
fn episodes_compare_numerically_or_literally() {
    let rule = show_rule(&["A", "B"]);
    assert_eq!(find_existing_release(&ep("B", "1"), &rule, &vec![sibling("x", ep("A", "01"))]), Some(ExistingRelease::Superior("x".to_string())));
    assert_eq!(find_existing_release(&ep("B", "OVA1"), &rule, &vec![sibling("x", ep("A", "OVA1"))]), Some(ExistingRelease::Superior("x".to_string())));
    assert_eq!(find_existing_release(&ep("B", "OVA1"), &rule, &vec![sibling("x", ep("A", "OVA2"))]), None);
    assert_eq!(find_existing_release(&ep("B", "1"), &rule, &vec![sibling("x", ep("A", "One"))]), None);
}

#[test]
fn equal_release_keeps_scanning() {
    let rule = show_rule(&["A", "B"]);
    let sibs = vec![sibling("same", ep("B", "03")), sibling("better", ep("A", "03"))];
    assert_eq!(find_existing_release(&ep("B", "03"), &rule, &sibs), Some(ExistingRelease::Superior("better".to_string())));
}

#[test]
fn existing_destination_decides_by_size() {
    let rule = show_rule(&["A"]);
    let sibs = vec![sibling("better", ep("A", "03"))];
    assert_eq!(decide(&ep("A", "03"), &rule, Some(50), Some(Some(50)), &sibs), Decision::SkipExistingMatches);
    assert_eq!(decide(&ep("A", "03"), &rule, Some(50), Some(Some(49)), &sibs), Decision::Overwrite);
    assert_eq!(decide(&ep("A", "03"), &rule, Some(50), Some(None), &sibs), Decision::Overwrite);
}

#[test]
fn rescan_after_copy_does_nothing() {
    let rule = show_rule(&["A", "B"]);
    let sibs = vec![sibling("old", ep("B", "04"))];
    assert_eq!(decide(&ep("A", "04"), &rule, Some(7), None, &sibs), Decision::Replace("old".to_string()));
    assert_eq!(decide(&ep("A", "04"), &rule, Some(7), Some(Some(7)), &vec![]), Decision::SkipExistingMatches);
}

#[test]
fn minimum_episode_boundary() {
    let c = config(&["A"], Some(5));
    assert!(matches!(check_release(&c, ep("A", "4"), Some(10)), Admission::BelowMinimum));
    assert!(matches!(check_release(&c, ep("A", "5"), Some(10)), Admission::Admitted(_, 0)));
    assert!(matches!(check_release(&c, ep("A", "OVA1"), Some(10)), Admission::Admitted(_, 0)));
}

#[test]
fn checks_in_order() {
    let c = config(&["A"], Some(5));
    let mut other = ep("A", "6");
    other.title = "Unknown".to_string();
    assert!(matches!(check_release(&c, other, Some(10)), Admission::NoRule));
    assert!(matches!(check_release(&c, ep("Z", "1"), Some(0)), Admission::GroupNotListed));
    assert!(matches!(check_release(&c, ep("A", "1"), Some(0)), Admission::BelowMinimum));
    assert!(matches!(check_release(&c, ep("A", "6"), Some(0)), Admission::EmptyFile));
    assert!(matches!(check_release(&c, ep("A", "6"), None), Admission::Admitted(_, 0)));
}

#[test]
fn checks_a_filename() {
    let c = config(&["GroupA"], None);
    match check_file(&c, "[GroupA] Show - 02.mkv", Some(10)) {
        Admission::Admitted(r, 0) => assert_eq!(r.episode, "02"),
        other => panic!("unexpected {:?}", other),
    }
    assert!(matches!(check_file(&c, "[GroupB] Show - 02.mkv", Some(10)), Admission::GroupNotListed));
    assert!(matches!(check_file(&c, "no group here", Some(10)), Admission::NoRelease));
}

#[test]
fn sibling_releases_read_names() {
    let c = config(&["GroupA"], None);
    let sibs = sibling_releases(&c, &vec!["[GroupA] Show - 03.mkv".to_string(), "notes".to_string()]);
    assert_eq!(sibs.len(), 2);
    assert_eq!(sibs[0].name, "[GroupA] Show - 03.mkv");
    assert_eq!(sibs[0].release.as_ref().unwrap().group, "GroupA");
    assert!(sibs[1].release.is_none());
}

#[test]
fn events_route_to_actions() {
    let a = action_for_event(EventKind::Write, "/etc/config.yml".to_string(), "/etc/config.yml").unwrap();
    assert_eq!(a.category, ActionCategory::ReloadConfig);
    let a = action_for_event(EventKind::Create, "/etc/./config.yml".to_string(), "/etc/config.yml").unwrap();
    assert_eq!(a.category, ActionCategory::ReloadConfig);
    let a = action_for_event(EventKind::Create, "/in/file.mkv".to_string(), "/etc/config.yml").unwrap();
    assert_eq!(a.category, ActionCategory::Process);
    assert_eq!(a.path, "/in/file.mkv");
    assert!(action_for_event(EventKind::Other, "/in/file.mkv".to_string(), "/etc/config.yml").is_none());
}

#[test]
fn failed_reload_keeps_configuration() {
    let current = config(&["A", "B"], None);
    let (kept, rescan) = apply_reload(current, Err(Error::YamlError));
    assert!(!rescan);
    assert_eq!(kept.get_rule("Show").unwrap().groups, vec!["A".to_string(), "B".to_string()]);
    let d = decide(&ep("B", "01"), kept.get_rule("Show").unwrap(), Some(1), None, &vec![sibling("a", ep("A", "01"))]);
    assert_eq!(d, Decision::SkipSuperiorExists("a".to_string()));
    let (next, rescan) = apply_reload(kept, Ok(config(&["C"], None)));
    assert!(rescan);
    assert_eq!(next.get_rule("Show").unwrap().groups, vec!["C".to_string()]);
}

#[test]
fn reload_keeps_configuration_on_any_failure() {
    let current = config(&["A"], None);
    let (kept, rescan) = reload(current, Err(Error::YamlError));
    assert!(!rescan);
    assert_eq!(kept.get_rule("Show").unwrap().groups, vec!["A".to_string()]);
    let (kept, rescan) = reload(kept, Ok(vec![]));
    assert!(!rescan);
    assert_eq!(kept.get_rule("Show").unwrap().groups, vec!["A".to_string()]);
    let no_library = ConfigValue::Mapping(vec![(ConfigValue::Text("source".to_string()), ConfigValue::Text("/x".to_string()))]);
    let (kept, rescan) = reload(kept, Ok(vec![no_library]));
    assert!(!rescan);
    assert_eq!(kept.source, "/in");
    let fresh = ConfigValue::Mapping(vec![
        (ConfigValue::Text("source".to_string()), ConfigValue::Text("/new".to_string())),
        (ConfigValue::Text("library".to_string()), ConfigValue::Text("/lib2".to_string())),
    ]);
    let (next, rescan) = reload(kept, Ok(vec![fresh]));
    assert!(rescan);
    assert_eq!(next.source, "/new");
    assert!(next.get_rule("Show").is_none());
}

fn arrive(rule: &Rule, lib: Vec<(String, Release)>, name: &str, r: Release) -> Vec<(String, Release)> {
    let sibs: Vec<Sibling> = lib
        .iter()
        .map(|(n, x)| sibling(n, release(&x.group, &x.episode, x.version, x.episode_type)))
        .collect();
    match decide(&r, rule, Some(10), None, &sibs) {
        Decision::Copy => {
            let mut lib = lib;
            lib.push((name.to_string(), r));
            lib
        }
        Decision::Replace(old) => {
            let mut lib: Vec<(String, Release)> = lib.into_iter().filter(|(n, _)| *n != old).collect();
            lib.push((name.to_string(), r));
            lib
        }
        _ => lib,
    }
}

#[test]
fn any_arrival_order_keeps_highest_group() {
    let rule = show_rule(&["A", "B", "C"]);
    let orders = [[0, 1, 2], [0, 2, 1], [1, 0, 2], [1, 2, 0], [2, 0, 1], [2, 1, 0]];
    let names = ["Show - 01 [A].mkv", "Show - 01 [B].mkv", "Show - 01 [C].mkv"];
    let groups = ["A", "B", "C"];
    for order in orders {
        let mut lib: Vec<(String, Release)> = Vec::new();
        for i in order {
            lib = arrive(&rule, lib, names[i], ep(groups[i], "01"));
        }
        assert_eq!(lib.len(), 1);
        assert_eq!(lib[0].0, names[0]);
    }
}
