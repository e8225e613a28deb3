use vstd::prelude::*;

use crate::anime::{opt_release_view, release_of_captures, release_of_filename, EpisodeType, Release, ReleaseView};
use crate::config::{index_is, position, rule_index_of, Configuration, ConfigurationView, Rule, RuleView};
use crate::pattern::regex_captures;
use crate::text::{i32_of, str_equals};

verus! {

/// How a file already in the library ranks against a candidate release.
#[derive(Debug, Clone, Copy, PartialEq, Eq, Structural)]
pub enum Verdict {
    Superior,
    Inferior,
}

/// A conflicting file of the library, named by its file name.
#[derive(Debug, PartialEq, Eq)]
pub enum ExistingRelease {
    Inferior(String),
    Superior(String),
}

pub open spec fn existing_view(r: Option<ExistingRelease>) -> Option<(Verdict, Seq<char>)> {
    match r {
        Some(ExistingRelease::Inferior(n)) => Some((Verdict::Inferior, n@)),
        Some(ExistingRelease::Superior(n)) => Some((Verdict::Superior, n@)),
        None => None,
    }
}

/// A file already in a title's library directory, with the release read
/// from its name, if any.
#[derive(Debug)]
pub struct Sibling {
    pub name: String,
    pub release: Option<Release>,
}

pub open spec fn sibling_views(v: Seq<Sibling>) -> Seq<(Seq<char>, Option<ReleaseView>)> {
    v.map_values(|s: Sibling| (s.name@, opt_release_view(s.release)))
}

/// Whether two releases are of the same episode: numerically where both
/// episodes are integers, literally where neither is.
pub open spec fn same_episode(c: ReleaseView, s: ReleaseView) -> bool {
    match (i32_of(c.episode), i32_of(s.episode)) {
        (Some(a), Some(b)) => a == b,
        (None, None) => c.episode == s.episode,
        _ => false,
    }
}

/// How an existing release `s` ranks against a candidate `c` under a rule's
/// groups: only releases of the same type and episode from listed groups
/// compare; the group listed first wins, then the higher version.
pub open spec fn sibling_verdict(c: ReleaseView, groups: Seq<Seq<char>>, s: ReleaseView) -> Option<
    Verdict,
> {
    if s.episode_type != c.episode_type || !same_episode(c, s) {
        None
    } else {
        match (position(groups, s.group), position(groups, c.group)) {
            (Some(ps), Some(pc)) => if ps < pc {
                Some(Verdict::Superior)
            } else if ps > pc {
                Some(Verdict::Inferior)
            } else if c.version < s.version {
                Some(Verdict::Superior)
            } else if c.version > s.version {
                Some(Verdict::Inferior)
            } else {
                None
            },
            _ => None,
        }
    }
}

/// The first existing file, in the given order, that ranks against the
/// candidate, with its verdict.
pub open spec fn existing_release_of(
    c: ReleaseView,
    groups: Seq<Seq<char>>,
    sibs: Seq<(Seq<char>, Option<ReleaseView>)>,
) -> Option<(Verdict, Seq<char>)>
    decreases sibs.len(),
{
    if sibs.len() == 0 {
        None
    } else {
        match sibs[0].1 {
            Some(s) => match sibling_verdict(c, groups, s) {
                Some(v) => Some((v, sibs[0].0)),
                None => existing_release_of(c, groups, sibs.skip(1)),
            },
            None => existing_release_of(c, groups, sibs.skip(1)),
        }
    }
}

/// Ranks an existing release against a candidate whose group priority is
/// `priority` and whose numeric episode is `episode`.
fn compare_release(
    release: &Release,
    priority: Option<usize>,
    episode: Option<i32>,
    rule: &Rule,
    entry: &Release,
) -> (r: Option<Verdict>)
    requires
        index_is(priority, position(rule@.groups, release@.group)),
        episode == i32_of(release@.episode),
    ensures
        r == sibling_verdict(release@, rule@.groups, entry@),
{
    if entry.episode_type != release.episode_type {
        return None;
    }
    match (episode, entry.numerical_episode()) {
        (Some(a), Some(b)) => if a != b {
            return None;
        },
        (None, None) => if !str_equals(entry.episode.as_str(), release.episode.as_str()) {
            return None;
        },
        _ => return None,
    }
    let group_priority = match priority {
        Some(p) => p,
        None => return None,
    };
    let entry_priority = match rule.get_priority(entry.group.as_str()) {
        Some(p) => p,
        None => return None,
    };
    if entry_priority < group_priority {
        Some(Verdict::Superior)
    } else if entry_priority > group_priority {
        Some(Verdict::Inferior)
    } else if release.version < entry.version {
        Some(Verdict::Superior)
    } else if release.version > entry.version {
        Some(Verdict::Inferior)
    } else {
        None
    }
}

/// Finds the first file among `siblings` that is superior or inferior to the
/// candidate release under `rule`.
pub fn find_existing_release(release: &Release, rule: &Rule, siblings: &Vec<Sibling>) -> (r: Option<
    ExistingRelease,
>)
    ensures
        existing_view(r) == existing_release_of(release@, rule@.groups, sibling_views(siblings@)),
{
    let priority = rule.get_priority(release.group.as_str());
    let episode = release.numerical_episode();
    let ghost all = sibling_views(siblings@);
    let mut i: usize = 0;
    assert(all.skip(0) =~= all);
    while i < siblings.len()
        invariant
            i <= siblings.len(),
            all == sibling_views(siblings@),
            index_is(priority, position(rule@.groups, release@.group)),
            episode == i32_of(release@.episode),
            existing_release_of(release@, rule@.groups, all) == existing_release_of(
                release@,
                rule@.groups,
                all.skip(i as int),
            ),
        decreases siblings.len() - i,
    {
        assert(all.skip(i as int).skip(1) =~= all.skip(i + 1));
        assert(all.skip(i as int)[0] == all[i as int]);
        let sibling = &siblings[i];
        if let Some(entry) = &sibling.release {
            match compare_release(release, priority, episode, rule, entry) {
                Some(Verdict::Superior) => return Some(ExistingRelease::Superior(sibling.name.clone())),
                Some(Verdict::Inferior) => return Some(ExistingRelease::Inferior(sibling.name.clone())),
                None => {},
            }
        }
        i = i + 1;
    }
    None
}

/// Whether a file whose copy already exists must be copied again: unless
/// both sizes are known and equal.
pub open spec fn recopy(from_size: Option<i64>, to_size: Option<i64>) -> bool {
    match to_size {
        None => true,
        Some(t) => from_size != Some(t),
    }
}

/// Decides whether a file is copied over an existing copy of the same name,
/// given the two file sizes, where they could be read.
pub fn should_recopy(from_size: Option<i64>, to_size: Option<i64>) -> (r: bool)
    ensures
        r == recopy(from_size, to_size),
{
    let to_filesize = match to_size {
        Some(t) => t,
        None => return true,
    };
    match from_size {
        Some(f) => f != to_filesize,
        None => true,
    }
}

/// The release that the first of `patterns` to yield one reads from a
/// filename: a pattern yields one where it captures a group and an episode.
pub open spec fn release_from_patterns(
    c: ConfigurationView,
    patterns: Seq<(Seq<char>, int)>,
    filename: Seq<char>,
) -> Option<ReleaseView>
    decreases patterns.len(),
{
    if patterns.len() == 0 {
        None
    } else {
        let k = patterns[0].1;
        let found = if 0 <= k < c.rules.len() {
            match regex_captures(patterns[0].0, filename, ("group"@, "episode"@, "version"@)) {
                Some(cap) => release_of_captures(c.rules[k].title, cap),
                None => None,
            }
        } else {
            None
        };
        match found {
            Some(r) => Some(r),
            None => release_from_patterns(c, patterns.skip(1), filename),
        }
    }
}

/// The release a filename describes under a configuration: that of the
/// configured patterns, else that of the filename parser.
pub open spec fn release_for(c: ConfigurationView, filename: Seq<char>) -> Option<ReleaseView> {
    match release_from_patterns(c, c.patterns, filename) {
        Some(r) => Some(r),
        None => release_of_filename(filename),
    }
}

/// The release a filename describes under a configuration.
pub fn make_release(config: &Configuration, filename: &str) -> (r: Option<Release>)
    ensures
        opt_release_view(r) == release_for(config@, filename@),
{
    let ghost all = config@.patterns;
    let mut i: usize = 0;
    assert(all.skip(0) =~= all);
    while i < config.regexes.len()
        invariant
            i <= config.regexes.len(),
            all == config@.patterns,
            release_from_patterns(config@, all, filename@) == release_from_patterns(
                config@,
                all.skip(i as int),
                filename@,
            ),
        decreases config.regexes.len() - i,
    {
        assert(all.skip(i as int).skip(1) =~= all.skip(i + 1));
        assert(all.skip(i as int)[0] == all[i as int]);
        let (pattern, index) = &config.regexes[i];
        if *index < config.rules.len() {
            if let Some(captures) = pattern.captures(filename, "group", "episode", "version") {
                let rule = &config.rules[*index];
                assert(rule@ == config@.rules[*index as int]);
                if let Some(release) = Release::from_captures(rule.title.as_str(), &captures) {
                    return Some(release);
                }
            }
        }
        i = i + 1;
    }
    Release::from(filename)
}

/// Reads the releases of the files already in a title's directory.
pub fn sibling_releases(config: &Configuration, names: &Vec<String>) -> (r: Vec<Sibling>)
    ensures
        sibling_views(r@) == names@.map_values(|n: String| (n@, release_for(config@, n@))),
{
    let mut siblings: Vec<Sibling> = Vec::new();
    let mut i: usize = 0;
    while i < names.len()
        invariant
            i <= names.len(),
            siblings@.len() == i,
            sibling_views(siblings@) == names@.take(i as int).map_values(
                |n: String| (n@, release_for(config@, n@)),
            ),
        decreases names.len() - i,
    {
        let release = make_release(config, names[i].as_str());
        let name = names[i].clone();
        assert(name@ == names@[i as int]@);
        let ghost prev = siblings@;
        siblings.push(Sibling { name, release });
        assert(siblings@ == prev.push(siblings@[i as int]));
        assert(sibling_views(siblings@)[i as int] == (names@[i as int]@, release_for(
            config@,
            names@[i as int]@,
        )));
        assert forall|j: int| 0 <= j < i implies sibling_views(siblings@)[j] == names@.take(
            i + 1,
        ).map_values(|n: String| (n@, release_for(config@, n@)))[j] by {
            assert(siblings@[j] == prev[j]);
            assert(sibling_views(prev)[j] == names@.take(i as int).map_values(
                |n: String| (n@, release_for(config@, n@)),
            )[j]);
        }
        assert(sibling_views(siblings@) =~= names@.take(i + 1).map_values(
            |n: String| (n@, release_for(config@, n@)),
        ));
        i = i + 1;
    }
    assert(names@.take(names.len() as int) =~= names@);
    siblings
}

/// What becomes of an admitted file.
#[derive(Debug, PartialEq, Eq)]
pub enum Decision {
    /// Copy it; nothing conflicts.
    Copy,
    /// Copy it over the file of the same name, whose size differs.
    Overwrite,
    /// Copy it and remove the named inferior file.
    Replace(String),
    /// Leave it: a copy of the same name and size exists.
    SkipExistingMatches,
    /// Leave it: the named file is superior.
    SkipSuperiorExists(String),
}

pub enum DecisionView {
    Copy,
    Overwrite,
    Replace(Seq<char>),
    SkipExistingMatches,
    SkipSuperiorExists(Seq<char>),
}

impl View for Decision {
    type V = DecisionView;

    open spec fn view(&self) -> DecisionView {
        match self {
            Decision::Copy => DecisionView::Copy,
            Decision::Overwrite => DecisionView::Overwrite,
            Decision::Replace(n) => DecisionView::Replace(n@),
            Decision::SkipExistingMatches => DecisionView::SkipExistingMatches,
            Decision::SkipSuperiorExists(n) => DecisionView::SkipSuperiorExists(n@),
        }
    }
}

/// The decision for an admitted release. `destination` is absent where no
/// file has the release's name in the title's directory, else that file's
/// size, if readable; `sibs` are the directory's files, consulted only in the
/// first case.
pub open spec fn decision_of(
    c: ReleaseView,
    groups: Seq<Seq<char>>,
    size: Option<i64>,
    destination: Option<Option<i64>>,
    sibs: Seq<(Seq<char>, Option<ReleaseView>)>,
) -> DecisionView {
    match destination {
        Some(to_size) => if recopy(size, to_size) {
            DecisionView::Overwrite
        } else {
            DecisionView::SkipExistingMatches
        },
        None => match existing_release_of(c, groups, sibs) {
            Some((Verdict::Superior, n)) => DecisionView::SkipSuperiorExists(n),
            Some((Verdict::Inferior, n)) => DecisionView::Replace(n),
            None => DecisionView::Copy,
        },
    }
}

/// Whether a decision copies the candidate into the library.
pub open spec fn copies(d: DecisionView) -> bool {
    match d {
        DecisionView::Copy | DecisionView::Overwrite | DecisionView::Replace(_) => true,
        _ => false,
    }
}

/// Whether a decision removes a file from the library.
pub open spec fn removes(d: DecisionView) -> bool {
    d is Replace
}

/// Decides what becomes of an admitted release, given what the title's
/// library directory holds.
pub fn decide(
    release: &Release,
    rule: &Rule,
    size: Option<i64>,
    destination: Option<Option<i64>>,
    siblings: &Vec<Sibling>,
) -> (r: Decision)
    ensures
        r@ == decision_of(release@, rule@.groups, size, destination, sibling_views(siblings@)),
{
    match destination {
        Some(to_size) => if should_recopy(size, to_size) {
            Decision::Overwrite
        } else {
            Decision::SkipExistingMatches
        },
        None => match find_existing_release(release, rule, siblings) {
            Some(ExistingRelease::Superior(n)) => Decision::SkipSuperiorExists(n),
            Some(ExistingRelease::Inferior(n)) => Decision::Replace(n),
            None => Decision::Copy,
        },
    }
}

/// Whether an episode falls under a rule's minimum; an episode that is not an
/// integer, or a rule without a minimum, never does.
pub open spec fn below_minimum(minimum: Option<i64>, episode: Option<i32>) -> bool {
    match (minimum, episode) {
        (Some(m), Some(e)) => m > e as i64,
        _ => false,
    }
}

/// The outcome of the checks a file passes before the library is consulted.
#[derive(Debug)]
pub enum Admission {
    /// The filename yields no release.
    NoRelease,
    /// No rule is registered for the release's title.
    NoRule,
    /// The rule does not list the release's group.
    GroupNotListed,
    /// The episode is below the rule's minimum.
    BelowMinimum,
    /// The file is empty, perhaps still being written.
    EmptyFile,
    /// The release goes on to the library, under the rule at this index.
    Admitted(Release, usize),
}

pub enum AdmissionView {
    NoRelease,
    NoRule,
    GroupNotListed,
    BelowMinimum,
    EmptyFile,
    Admitted(ReleaseView, int),
}

impl View for Admission {
    type V = AdmissionView;

    open spec fn view(&self) -> AdmissionView {
        match self {
            Admission::NoRelease => AdmissionView::NoRelease,
            Admission::NoRule => AdmissionView::NoRule,
            Admission::GroupNotListed => AdmissionView::GroupNotListed,
            Admission::BelowMinimum => AdmissionView::BelowMinimum,
            Admission::EmptyFile => AdmissionView::EmptyFile,
            Admission::Admitted(r, k) => AdmissionView::Admitted(r@, *k as int),
        }
    }
}

/// The checks, in order: a rule for the title, the group listed by it, the
/// episode not below its minimum, and a file that is not empty (`size` is the
/// file's size, where it could be read).
pub open spec fn admission_of(c: ConfigurationView, r: ReleaseView, size: Option<i64>) -> AdmissionView {
    match rule_index_of(c, r.title) {
        None => AdmissionView::NoRule,
        Some(k) => if position(c.rules[k].groups, r.group) is None {
            AdmissionView::GroupNotListed
        } else if below_minimum(c.rules[k].minimum, i32_of(r.episode)) {
            AdmissionView::BelowMinimum
        } else if size == Some(0i64) {
            AdmissionView::EmptyFile
        } else {
            AdmissionView::Admitted(r, k)
        },
    }
}

/// Applies the checks to a release read from a file of the given size.
pub fn check_release(config: &Configuration, release: Release, size: Option<i64>) -> (r: Admission)
    ensures
        r@ == admission_of(config@, release@, size),
{
    let k = match config.rule_index(release.title.as_str()) {
        Some(k) => k,
        None => return Admission::NoRule,
    };
    let rule = &config.rules[k];
    assert(rule@ == config@.rules[k as int]);
    if rule.get_priority(release.group.as_str()).is_none() {
        return Admission::GroupNotListed;
    }
    match (rule.minimum.episode_number, release.numerical_episode()) {
        (Some(minimum), Some(episode)) => if minimum > episode as i64 {
            return Admission::BelowMinimum;
        },
        _ => {},
    }
    if size == Some(0i64) {
        return Admission::EmptyFile;
    }
    Admission::Admitted(release, k)
}

/// Reads the release of a filename and applies the checks to it.
pub fn check_file(config: &Configuration, filename: &str, size: Option<i64>) -> (r: Admission)
    ensures
        r@ == match release_for(config@, filename@) {
            Some(release) => admission_of(config@, release, size),
            None => AdmissionView::NoRelease,
        },
{
    match make_release(config, filename) {
        Some(release) => check_release(config, release, size),
        None => Admission::NoRelease,
    }
}

/// Group priority decides between two releases of one episode and type from
/// listed groups, in either order of arrival: the release of the group listed
/// first is superior, so it replaces the other when it arrives second and the
/// other is skipped when it arrives second.
pub proof fn lemma_group_priority(
    groups: Seq<Seq<char>>,
    high: ReleaseView,
    low: ReleaseView,
    high_name: Seq<char>,
    low_name: Seq<char>,
    size: Option<i64>,
)
    requires
        high.episode_type == low.episode_type,
        same_episode(high, low),
        position(groups, high.group) is Some,
        position(groups, low.group) is Some,
        position(groups, high.group)->Some_0 < position(groups, low.group)->Some_0,
    ensures
        sibling_verdict(low, groups, high) == Some(Verdict::Superior),
        sibling_verdict(high, groups, low) == Some(Verdict::Inferior),
        decision_of(low, groups, size, None, seq![(high_name, Some(high))])
            == DecisionView::SkipSuperiorExists(high_name),
        decision_of(high, groups, size, None, seq![(low_name, Some(low))]) == DecisionView::Replace(
            low_name,
        ),
{
    assert(same_episode(low, high));
    assert(seq![(high_name, Some(high))][0] == (high_name, Some(high)));
    assert(seq![(low_name, Some(low))][0] == (low_name, Some(low)));
}

/// Within one group, the higher version of an episode is superior, in either
/// order of arrival: a lower version arriving second is skipped, a higher one
/// replaces the lower.
pub proof fn lemma_version_order(
    groups: Seq<Seq<char>>,
    higher: ReleaseView,
    lower: ReleaseView,
    higher_name: Seq<char>,
    lower_name: Seq<char>,
    size: Option<i64>,
)
    requires
        higher.episode_type == lower.episode_type,
        same_episode(higher, lower),
        higher.group == lower.group,
        position(groups, higher.group) is Some,
        higher.version > lower.version,
    ensures
        sibling_verdict(lower, groups, higher) == Some(Verdict::Superior),
        sibling_verdict(higher, groups, lower) == Some(Verdict::Inferior),
        decision_of(lower, groups, size, None, seq![(higher_name, Some(higher))])
            == DecisionView::SkipSuperiorExists(higher_name),
        decision_of(higher, groups, size, None, seq![(lower_name, Some(lower))])
            == DecisionView::Replace(lower_name),
{
    assert(same_episode(lower, higher));
    assert(seq![(higher_name, Some(higher))][0] == (higher_name, Some(higher)));
    assert(seq![(lower_name, Some(lower))][0] == (lower_name, Some(lower)));
}

/// Deciding again on a file whose size is known, once the first decision has
/// been carried out, neither copies nor removes anything: a copy now matches
/// the file by size, and a skip finds the library as it was.
pub proof fn lemma_rescan_idempotent(
    c: ReleaseView,
    groups: Seq<Seq<char>>,
    size: Option<i64>,
    destination: Option<Option<i64>>,
    sibs: Seq<(Seq<char>, Option<ReleaseView>)>,
    sibs_after: Seq<(Seq<char>, Option<ReleaseView>)>,
)
    requires
        size is Some,
        !copies(decision_of(c, groups, size, destination, sibs)) ==> sibs_after == sibs,
    ensures
        ({
            let first = decision_of(c, groups, size, destination, sibs);
            let destination_after = if copies(first) {
                Some(size)
            } else {
                destination
            };
            let second = decision_of(c, groups, size, destination_after, sibs_after);
            !copies(second) && !removes(second)
        }),
{
}

/// The minimum-episode check rejects exactly the integer episodes below the
/// rule's minimum; an episode that is not an integer passes it.
pub proof fn lemma_minimum_gate(c: ConfigurationView, r: ReleaseView, size: Option<i64>)
    requires
        rule_index_of(c, r.title) is Some,
        position(c.rules[rule_index_of(c, r.title)->Some_0].groups, r.group) is Some,
    ensures
        ({
            let rule = c.rules[rule_index_of(c, r.title)->Some_0];
            &&& (admission_of(c, r, size) is BelowMinimum) <==> (rule.minimum is Some && i32_of(
                r.episode,
            ) is Some && rule.minimum->Some_0 > i32_of(r.episode)->Some_0 as i64)
            &&& i32_of(r.episode) is None ==> !(admission_of(c, r, size) is BelowMinimum)
        }),
{
}

/// The library files other than those named `n`.
pub open spec fn without(
    lib: Seq<(Seq<char>, Option<ReleaseView>)>,
    n: Seq<char>,
) -> Seq<(Seq<char>, Option<ReleaseView>)>
    decreases lib.len(),
{
    if lib.len() == 0 {
        lib
    } else {
        let rest = without(lib.drop_last(), n);
        if lib.last().0 == n {
            rest
        } else {
            rest.push(lib.last())
        }
    }
}

/// A title's library directory after a new, non-empty file `name`, whose
/// name the directory does not hold yet, is handled with release `r`: copied
/// in, copied in with the inferior file removed, or left out.
pub open spec fn arrive(
    groups: Seq<Seq<char>>,
    lib: Seq<(Seq<char>, Option<ReleaseView>)>,
    name: Seq<char>,
    r: ReleaseView,
) -> Seq<(Seq<char>, Option<ReleaseView>)> {
    match decision_of(r, groups, Some(1i64), None, lib) {
        DecisionView::Copy => lib.push((name, Some(r))),
        DecisionView::Replace(n) => without(lib, n).push((name, Some(r))),
        _ => lib,
    }
}

proof fn lemma_arrive_empty(groups: Seq<Seq<char>>, name: Seq<char>, r: ReleaseView)
    ensures
        arrive(groups, Seq::empty(), name, r) == seq![(name, Some(r))],
{
    assert(Seq::<(Seq<char>, Option<ReleaseView>)>::empty().push((name, Some(r))) =~= seq![
        (name, Some(r)),
    ]);
}

/// A file arriving where one comparable file lies: the library keeps the
/// one whose group is listed first.
proof fn lemma_arrive_single(
    groups: Seq<Seq<char>>,
    n: Seq<char>,
    s: ReleaseView,
    name: Seq<char>,
    r: ReleaseView,
)
    requires
        s.episode_type == r.episode_type,
        same_episode(r, s),
        position(groups, s.group) is Some,
        position(groups, r.group) is Some,
        position(groups, s.group) != position(groups, r.group),
    ensures
        arrive(groups, seq![(n, Some(s))], name, r) == if position(groups, s.group)->Some_0
            < position(groups, r.group)->Some_0 {
            seq![(n, Some(s))]
        } else {
            seq![(name, Some(r))]
        },
{
    let lib = seq![(n, Some(s))];
    assert(lib[0] == (n, Some(s)));
    assert(lib.skip(1) =~= Seq::<(Seq<char>, Option<ReleaseView>)>::empty());
    assert(lib.drop_last() =~= Seq::<(Seq<char>, Option<ReleaseView>)>::empty());
    assert(lib.last().0 == n);
    assert(without(lib.drop_last(), n) == lib.drop_last());
    assert(without(lib, n) =~= Seq::<(Seq<char>, Option<ReleaseView>)>::empty());
    assert(Seq::<(Seq<char>, Option<ReleaseView>)>::empty().push((name, Some(r))) =~= seq![
        (name, Some(r)),
    ]);
}

/// Whether the group of `x` is listed before that of `y`.
spec fn best_of(groups: Seq<Seq<char>>, x: ReleaseView, y: ReleaseView) -> bool {
    position(groups, x.group)->Some_0 < position(groups, y.group)->Some_0
}

/// Whatever the order in which three releases of one episode and type, from
/// three groups of a rule, reach an empty library, the library ends up
/// holding the release of the group listed first, and nothing else.
pub proof fn lemma_arrival_order(
    groups: Seq<Seq<char>>,
    arrivals: Seq<(Seq<char>, ReleaseView)>,
    i: int,
    j: int,
    k: int,
)
    requires
        arrivals.len() == 3,
        0 <= i < 3 && 0 <= j < 3 && 0 <= k < 3 && i != j && j != k && i != k,
        forall|x: int, y: int|
            0 <= x < 3 && 0 <= y < 3 ==> {
                &&& (#[trigger] arrivals[x]).1.episode_type == (#[trigger] arrivals[y]).1.episode_type
                &&& same_episode(arrivals[x].1, arrivals[y].1)
                &&& x != y ==> arrivals[x].0 != arrivals[y].0
            },
        forall|x: int| 0 <= x < 3 ==> position(groups, (#[trigger] arrivals[x]).1.group) is Some,
        position(groups, arrivals[0].1.group)->Some_0 < position(groups, arrivals[1].1.group)->Some_0,
        position(groups, arrivals[1].1.group)->Some_0 < position(groups, arrivals[2].1.group)->Some_0,
    ensures
        arrive(
            groups,
            arrive(
                groups,
                arrive(groups, Seq::empty(), arrivals[i].0, arrivals[i].1),
                arrivals[j].0,
                arrivals[j].1,
            ),
            arrivals[k].0,
            arrivals[k].1,
        ) == seq![(arrivals[0].0, Some(arrivals[0].1))],
{
    let x = arrivals[i];
    let y = arrivals[j];
    let z = arrivals[k];
    lemma_arrive_empty(groups, x.0, x.1);
    lemma_arrive_single(groups, x.0, x.1, y.0, y.1);
    let kept = if best_of(groups, x.1, y.1) {
        x
    } else {
        y
    };
    assert(kept.1.episode_type == z.1.episode_type && same_episode(z.1, kept.1));
    lemma_arrive_single(groups, kept.0, kept.1, z.0, z.1);
}

proof fn lemma_pattern_versions(c: ConfigurationView, patterns: Seq<(Seq<char>, int)>, filename: Seq<char>)
    ensures
        release_from_patterns(c, patterns, filename) matches Some(r) ==> r.version >= 1,
    decreases patterns.len(),
{
    if patterns.len() > 0 {
        lemma_pattern_versions(c, patterns.skip(1), filename);
    }
}

/// Every release the library reads from a filename has a version of at
/// least 1.
pub proof fn lemma_version_at_least_one(c: ConfigurationView, filename: Seq<char>)
    ensures
        release_for(c, filename) matches Some(r) ==> r.version >= 1,
{
    lemma_pattern_versions(c, c.patterns, filename);
}

} // verus!
