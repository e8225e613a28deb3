use yurizaki::anime::{EpisodeType, ParsedElements, Release};

fn s(v: &str) -> Option<String> {
    Some(v.to_string())
}

#[test]
fn episode_type_from_tags() {
    assert_eq!(EpisodeType::from_element(None), EpisodeType::Episode);
    assert_eq!(EpisodeType::from_element(Some("ED")), EpisodeType::Ending);
    assert_eq!(EpisodeType::from_element(Some("Gekijouban")), EpisodeType::Movie);
    assert_eq!(EpisodeType::from_element(Some("Movie")), EpisodeType::Movie);
    assert_eq!(EpisodeType::from_element(Some("OP")), EpisodeType::Opening);
    assert_eq!(EpisodeType::from_element(Some("OVA")), EpisodeType::OVA);
    assert_eq!(EpisodeType::from_element(Some("PV")), EpisodeType::Preview);
    assert_eq!(EpisodeType::from_element(Some("Preview")), EpisodeType::Preview);
    assert_eq!(EpisodeType::from_element(Some("SP")), EpisodeType::Special);
    assert_eq!(EpisodeType::from_element(Some("TV")), EpisodeType::Episode);
    assert_eq!(EpisodeType::from_element(Some("ONA")), EpisodeType::Other);
}

#[test]
fn elements_need_title_and_group() {
    let missing_group = ParsedElements { title: s("Show"), group: None, episode: s("01"), version: None, kind: None };
    assert!(Release::from_elements(&missing_group).is_none());
    let missing_title = ParsedElements { title: None, group: s("GroupA"), episode: s("01"), version: None, kind: None };
    assert!(Release::from_elements(&missing_title).is_none());
}

#[test]
fn elements_defaults() {
    let e = ParsedElements { title: s("Show"), group: s("GroupA"), episode: None, version: None, kind: None };
    let r = Release::from_elements(&e).unwrap();
    assert_eq!(r.title, "Show");
    assert_eq!(r.group, "GroupA");
    assert_eq!(r.episode, "-1");
    assert_eq!(r.version, 1);
    assert_eq!(r.episode_type, EpisodeType::Episode);
}

#[test]
fn elements_version_and_type() {
    let e = ParsedElements { title: s("Show"), group: s("G"), episode: s("03"), version: s("2"), kind: s("OVA") };
    let r = Release::from_elements(&e).unwrap();
    assert_eq!(r.version, 2);
    assert_eq!(r.episode, "03");
    assert_eq!(r.episode_type, EpisodeType::OVA);
    let bad = ParsedElements { title: s("Show"), group: s("G"), episode: s("03"), version: s("two"), kind: None };
    assert_eq!(Release::from_elements(&bad).unwrap().version, 1);
}

fn release(episode: &str) -> Release {
    Release {
        title: "Show".to_string(),
        group: "G".to_string(),
        episode: episode.to_string(),
        version: 1,
        episode_type: EpisodeType::Episode,
    }
}

#[test]
fn numerical_episode_parses_integers() {
    assert_eq!(release("04").numerical_episode(), Some(4));
    assert_eq!(release("12").numerical_episode(), Some(12));
    assert_eq!(release("-1").numerical_episode(), Some(-1));
    assert_eq!(release("+7").numerical_episode(), Some(7));
    assert_eq!(release("OVA1").numerical_episode(), None);
    assert_eq!(release("").numerical_episode(), None);
    assert_eq!(release("3000000000").numerical_episode(), None);
}

#[test]
fn parses_a_filename() {
    let r = Release::from("[GroupA] Show - 01.mkv").unwrap();
    assert_eq!(r.title, "Show");
    assert_eq!(r.group, "GroupA");
    assert_eq!(r.episode, "01");
    assert_eq!(r.numerical_episode(), Some(1));
    assert_eq!(r.version, 1);
}

#[test]
fn parses_a_version() {
    let r = Release::from("[GroupA] Show - 01v2.mkv").unwrap();
    assert_eq!(r.episode, "01");
    assert_eq!(r.version, 2);
}

#[test]
fn parsing_is_repeatable() {
    let a = Release::from("[GroupB] Another Show - 12 [720p].mkv");
    let b = Release::from("[GroupB] Another Show - 12 [720p].mkv");
    assert_eq!(a.is_some(), b.is_some());
    let (a, b) = (a.unwrap(), b.unwrap());
    assert_eq!((a.title, a.group, a.episode, a.version), (b.title, b.group, b.episode, b.version));
}

#[test]
fn filename_without_group_is_absent() {
    assert!(Release::from("Show - 01.mkv").is_none());
}

#[test]
fn filename_with_nul_is_absent() {
    assert!(Release::from("[GroupA] Show\0 - 01.mkv").is_none());
}

#[test]
fn version_below_one_becomes_one() {
    let zero = ParsedElements { title: s("Show"), group: s("G"), episode: s("01"), version: s("0"), kind: None };
    assert_eq!(Release::from_elements(&zero).unwrap().version, 1);
    let negative = ParsedElements { title: s("Show"), group: s("G"), episode: s("01"), version: s("-3"), kind: None };
    assert_eq!(Release::from_elements(&negative).unwrap().version, 1);
}

#[test]
fn filename_version_zero_reads_as_one() {
    let r = Release::from("[GroupA] Show - 01v0.mkv").unwrap();
    assert_eq!(r.version, 1);
}
