use vstd::prelude::*;

use crate::pattern::{regex_compiles, regex_group_names, Pattern};
use crate::text::{opt_view, str_equals};

verus! {

/// A node of a configuration document: a scalar, a sequence, or a mapping
/// whose entries keep the order in which the document wrote them.
#[derive(Debug)]
pub enum ConfigValue {
    Text(String),
    Integer(i64),
    Boolean(bool),
    List(Vec<ConfigValue>),
    Mapping(Vec<(ConfigValue, ConfigValue)>),
    Other,
}

/// The text of a scalar string node.
pub open spec fn text_of(v: ConfigValue) -> Option<Seq<char>> {
    match v {
        ConfigValue::Text(s) => Some(s@),
        _ => None,
    }
}

/// The string items of a sequence, in order; other items are left out.
pub open spec fn string_items(items: Seq<ConfigValue>) -> Seq<Seq<char>>
    decreases items.len(),
{
    if items.len() == 0 {
        Seq::empty()
    } else {
        let rest = string_items(items.drop_last());
        match items.last() {
            ConfigValue::Text(s) => rest.push(s@),
            _ => rest,
        }
    }
}

/// The minimum episode of a rule's `minimum` mapping: the last integer
/// `episode` entry.
pub open spec fn minimum_of(entries: Seq<(ConfigValue, ConfigValue)>) -> Option<i64>
    decreases entries.len(),
{
    if entries.len() == 0 {
        None
    } else {
        match (text_of(entries.last().0), entries.last().1) {
            (Some(k), ConfigValue::Integer(n)) if k == "episode"@ => Some(n),
            _ => minimum_of(entries.drop_last()),
        }
    }
}

/// A rule's groups: the string items of its last sequence `groups` entry.
pub open spec fn groups_of(entries: Seq<(ConfigValue, ConfigValue)>) -> Seq<Seq<char>>
    decreases entries.len(),
{
    if entries.len() == 0 {
        Seq::empty()
    } else {
        match (text_of(entries.last().0), entries.last().1) {
            (Some(k), ConfigValue::List(a)) if k == "groups"@ => string_items(a@),
            _ => groups_of(entries.drop_last()),
        }
    }
}

/// A rule's minimum episode, read from its last mapping `minimum` entry.
pub open spec fn rule_minimum_of(entries: Seq<(ConfigValue, ConfigValue)>) -> Option<i64>
    decreases entries.len(),
{
    if entries.len() == 0 {
        None
    } else {
        match (text_of(entries.last().0), entries.last().1) {
            (Some(k), ConfigValue::Mapping(h)) if k == "minimum"@ => minimum_of(h@),
            _ => rule_minimum_of(entries.drop_last()),
        }
    }
}

/// The items under the last entry with key `key`, where that entry is a
/// sequence; none otherwise.
pub open spec fn keyed_list(entries: Seq<(ConfigValue, ConfigValue)>, key: Seq<char>) -> Seq<
    ConfigValue,
>
    decreases entries.len(),
{
    if entries.len() == 0 {
        Seq::empty()
    } else if text_of(entries.last().0) == Some(key) {
        match entries.last().1 {
            ConfigValue::List(a) => a@,
            _ => Seq::empty(),
        }
    } else {
        keyed_list(entries.drop_last(), key)
    }
}

/// A rule's aliases: the string items under its `aliases` key.
pub open spec fn aliases_of(entries: Seq<(ConfigValue, ConfigValue)>) -> Seq<Seq<char>> {
    string_items(keyed_list(entries, "aliases"@))
}

/// The pattern text of a configuration item, where it is a string that
/// compiles to a regex with groups named `episode` and `group`.
pub open spec fn usable_pattern(item: ConfigValue) -> Option<Seq<char>> {
    match item {
        ConfigValue::Text(s) => if regex_compiles(s@) && regex_group_names(s@).contains(
            Some("episode"@),
        ) && regex_group_names(s@).contains(Some("group"@)) {
            Some(s@)
        } else {
            None
        },
        _ => None,
    }
}

/// The usable patterns among `items`, in order.
pub open spec fn usable_patterns(items: Seq<ConfigValue>) -> Seq<Seq<char>>
    decreases items.len(),
{
    if items.len() == 0 {
        Seq::empty()
    } else {
        let rest = usable_patterns(items.drop_last());
        match usable_pattern(items.last()) {
            Some(p) => rest.push(p),
            None => rest,
        }
    }
}

/// What a rule holds: its canonical title, its groups from highest priority
/// to lowest, and the lowest episode number it accepts.
pub struct RuleView {
    pub title: Seq<char>,
    pub groups: Seq<Seq<char>>,
    pub minimum: Option<i64>,
}

pub open spec fn rule_of_entries(title: Seq<char>, entries: Seq<(ConfigValue, ConfigValue)>) -> RuleView {
    RuleView { title, groups: groups_of(entries), minimum: rule_minimum_of(entries) }
}

/// The lowest episode number a rule accepts, if any.
#[derive(Debug, Default)]
pub struct RuleMinimum {
    pub episode_number: Option<i64>,
}

/// Per-title policy: the release groups trusted for the title, in priority
/// order, and the lowest episode number accepted.
#[derive(Debug)]
pub struct Rule {
    pub groups: Vec<String>,
    pub title: String,
    pub minimum: RuleMinimum,
}

pub open spec fn string_views(v: Seq<String>) -> Seq<Seq<char>> {
    v.map_values(|s: String| s@)
}

impl View for Rule {
    type V = RuleView;

    open spec fn view(&self) -> RuleView {
        RuleView {
            title: self.title@,
            groups: string_views(self.groups@),
            minimum: self.minimum.episode_number,
        }
    }
}

/// The position of the first occurrence of `g` in `groups`.
pub open spec fn position(groups: Seq<Seq<char>>, g: Seq<char>) -> Option<int>
    decreases groups.len(),
{
    if groups.len() == 0 {
        None
    } else {
        match position(groups.drop_last(), g) {
            Some(i) => Some(i),
            None => if groups.last() == g {
                Some(groups.len() - 1)
            } else {
                None
            },
        }
    }
}

/// The string items of a configuration sequence.
fn yaml_array_to_vec(array: &Vec<ConfigValue>) -> (r: Vec<String>)
    ensures
        string_views(r@) == string_items(array@),
{
    let mut vec: Vec<String> = Vec::new();
    let mut i: usize = 0;
    while i < array.len()
        invariant
            i <= array.len(),
            string_views(vec@) == string_items(array@.take(i as int)),
        decreases array.len() - i,
    {
        assert(array@.take(i + 1).drop_last() =~= array@.take(i as int));
        if let ConfigValue::Text(item) = &array[i] {
            vec.push(item.clone());
        }
        assert(string_views(vec@) =~= string_items(array@.take(i + 1)));
        i = i + 1;
    }
    assert(array@.take(array.len() as int) =~= array@);
    vec
}

fn is_key(key: &ConfigValue, name: &str) -> (r: bool)
    ensures
        r == (text_of(*key) == Some(name@)),
{
    match key {
        ConfigValue::Text(k) => str_equals(k.as_str(), name),
        _ => false,
    }
}

impl RuleMinimum {
    fn read(hash: &Vec<(ConfigValue, ConfigValue)>) -> (r: Self)
        ensures
            r.episode_number == minimum_of(hash@),
    {
        let mut episode_number: Option<i64> = None;
        let mut i: usize = 0;
        while i < hash.len()
            invariant
                i <= hash.len(),
                episode_number == minimum_of(hash@.take(i as int)),
            decreases hash.len() - i,
        {
            assert(hash@.take(i + 1).drop_last() =~= hash@.take(i as int));
            let (key, value) = &hash[i];
            if is_key(key, "episode") {
                if let ConfigValue::Integer(n) = value {
                    episode_number = Some(*n);
                }
            }
            i = i + 1;
        }
        assert(hash@.take(hash.len() as int) =~= hash@);
        Self { episode_number }
    }
}

impl Rule {
    fn read(config: &Vec<(ConfigValue, ConfigValue)>, title: String) -> (r: Self)
        ensures
            r@ == rule_of_entries(title@, config@),
    {
        let mut groups: Vec<String> = Vec::new();
        let mut minimum = RuleMinimum { episode_number: None };
        let mut i: usize = 0;
        while i < config.len()
            invariant
                i <= config.len(),
                string_views(groups@) == groups_of(config@.take(i as int)),
                minimum.episode_number == rule_minimum_of(config@.take(i as int)),
            decreases config.len() - i,
        {
            assert(config@.take(i + 1).drop_last() =~= config@.take(i as int));
            let (key, value) = &config[i];
            if is_key(key, "groups") {
                if let ConfigValue::List(array) = value {
                    groups = yaml_array_to_vec(array);
                }
            }
            if is_key(key, "minimum") {
                if let ConfigValue::Mapping(hash) = value {
                    minimum = RuleMinimum::read(hash);
                }
            }
            i = i + 1;
        }
        assert(config@.take(config.len() as int) =~= config@);
        Rule { title, groups, minimum }
    }

    /// The priority of a group under this rule: its first position in the
    /// group list, lower being preferred.
    pub fn get_priority(&self, group_name: &str) -> (r: Option<usize>)
        ensures
            index_is(r, position(self@.groups, group_name@)),
    {
        let mut i: usize = 0;
        while i < self.groups.len()
            invariant
                i <= self.groups.len(),
                position(self@.groups.take(i as int), group_name@) is None,
            decreases self.groups.len() - i,
        {
            assert(self@.groups.take(i + 1).drop_last() =~= self@.groups.take(i as int));
            if str_equals(self.groups[i].as_str(), group_name) {
                proof {
                    lemma_position_prefix(self@.groups, group_name@, i + 1);
                }
                return Some(i);
            }
            i = i + 1;
        }
        assert(self@.groups.take(i as int) =~= self@.groups);
        None
    }
}

/// An optional index agrees with an optional position.
pub open spec fn index_is(r: Option<usize>, p: Option<int>) -> bool {
    match r {
        Some(i) => p == Some(i as int),
        None => p is None,
    }
}

/// A first occurrence found in a prefix is the first occurrence overall.
pub proof fn lemma_position_prefix(groups: Seq<Seq<char>>, g: Seq<char>, n: int)
    requires
        0 <= n <= groups.len(),
        position(groups.take(n), g) is Some,
    ensures
        position(groups, g) == position(groups.take(n), g),
    decreases groups.len() - n,
{
    if n < groups.len() {
        assert(groups.take(n + 1).drop_last() =~= groups.take(n));
        lemma_position_prefix(groups, g, n + 1);
    } else {
        assert(groups.take(n) =~= groups);
    }
}

/// The value of the last entry that sets `key` to a string.
pub open spec fn setting_text(entries: Seq<(ConfigValue, ConfigValue)>, key: Seq<char>) -> Option<
    Seq<char>,
>
    decreases entries.len(),
{
    if entries.len() == 0 {
        None
    } else {
        match (text_of(entries.last().0), entries.last().1) {
            (Some(k), ConfigValue::Text(v)) if k == key => Some(v@),
            _ => setting_text(entries.drop_last(), key),
        }
    }
}

/// Whether trash is enabled: the last boolean `trash` entry, off by default.
pub open spec fn trash_of(entries: Seq<(ConfigValue, ConfigValue)>) -> bool
    decreases entries.len(),
{
    if entries.len() == 0 {
        false
    } else {
        match (text_of(entries.last().0), entries.last().1) {
            (Some(k), ConfigValue::Boolean(b)) if k == "trash"@ => b,
            _ => trash_of(entries.drop_last()),
        }
    }
}

/// The top-level keys that hold settings and never name a rule.
pub open spec fn reserved_key(k: Seq<char>) -> bool {
    k == "source"@ || k == "library"@ || k == "trash"@
}

/// The rules of a configuration: one for each entry that maps a string key
/// other than a reserved one to a mapping, in document order, titled by the
/// key.
pub open spec fn rules_of(entries: Seq<(ConfigValue, ConfigValue)>) -> Seq<RuleView>
    decreases entries.len(),
{
    if entries.len() == 0 {
        Seq::empty()
    } else {
        let rest = rules_of(entries.drop_last());
        match (text_of(entries.last().0), entries.last().1) {
            (Some(t), ConfigValue::Mapping(h)) if !reserved_key(t) => rest.push(rule_of_entries(t, h@)),
            _ => rest,
        }
    }
}

/// The registry's insertions, in order: each rule's title, then its aliases,
/// paired with the rule's index. A later insertion of a name overrides an
/// earlier one.
pub open spec fn mapping_of(entries: Seq<(ConfigValue, ConfigValue)>) -> Seq<(Seq<char>, int)>
    decreases entries.len(),
{
    if entries.len() == 0 {
        Seq::empty()
    } else {
        let rest = mapping_of(entries.drop_last());
        let k = rules_of(entries.drop_last()).len() as int;
        match (text_of(entries.last().0), entries.last().1) {
            (Some(t), ConfigValue::Mapping(h)) if !reserved_key(t) => rest.push((t, k)) + aliases_of(h@).map_values(
                |a: Seq<char>| (a, k),
            ),
            _ => rest,
        }
    }
}

/// The configured patterns, in order, each with the index of its rule.
pub open spec fn patterns_of(entries: Seq<(ConfigValue, ConfigValue)>) -> Seq<(Seq<char>, int)>
    decreases entries.len(),
{
    if entries.len() == 0 {
        Seq::empty()
    } else {
        let rest = patterns_of(entries.drop_last());
        let k = rules_of(entries.drop_last()).len() as int;
        match (text_of(entries.last().0), entries.last().1) {
            (Some(t), ConfigValue::Mapping(h)) if !reserved_key(t) => rest + usable_patterns(keyed_list(h@, "regex"@)).map_values(
                |p: Seq<char>| (p, k),
            ),
            _ => rest,
        }
    }
}

/// The index that the registry holds for `name`: that of its last insertion.
pub open spec fn lookup(mapping: Seq<(Seq<char>, int)>, name: Seq<char>) -> Option<int>
    decreases mapping.len(),
{
    if mapping.len() == 0 {
        None
    } else if mapping.last().0 == name {
        Some(mapping.last().1)
    } else {
        lookup(mapping.drop_last(), name)
    }
}

/// How reading the configuration file failed.
#[derive(Debug, PartialEq, Eq)]
pub enum IoFailure {
    NotFound,
    Other(String),
}

/// Why a configuration could not be loaded.
#[derive(Debug, PartialEq, Eq)]
pub enum Error {
    Io(IoFailure),
    MissingLibrary,
    MissingSource,
    YamlError,
}

/// What a configuration holds: its rules, the registry's insertions, the
/// patterns with their rules' indices, and its settings.
pub struct ConfigurationView {
    pub rules: Seq<RuleView>,
    pub mapping: Seq<(Seq<char>, int)>,
    pub patterns: Seq<(Seq<char>, int)>,
    pub source: Seq<char>,
    pub library: Seq<char>,
    pub trash: bool,
}

/// The entries of a document's top-level mapping; none for another node.
pub open spec fn top_entries(doc: ConfigValue) -> Seq<(ConfigValue, ConfigValue)> {
    match doc {
        ConfigValue::Mapping(h) => h@,
        _ => Seq::empty(),
    }
}

/// The configuration that the first document describes. A missing document
/// is a format error; then the source path, then the library path, must be
/// set.
pub open spec fn configuration_of(documents: Seq<ConfigValue>) -> Result<ConfigurationView, Error> {
    if documents.len() == 0 {
        Err(Error::YamlError)
    } else {
        let e = top_entries(documents[0]);
        match (setting_text(e, "source"@), setting_text(e, "library"@)) {
            (None, _) => Err(Error::MissingSource),
            (Some(_), None) => Err(Error::MissingLibrary),
            (Some(source), Some(library)) => Ok(
                ConfigurationView {
                    rules: rules_of(e),
                    mapping: mapping_of(e),
                    patterns: patterns_of(e),
                    source,
                    library,
                    trash: trash_of(e),
                },
            ),
        }
    }
}

/// The rule registry and the paths it works on.
#[derive(Debug)]
pub struct Configuration {
    pub rules: Vec<Rule>,
    pub mapping: Vec<(String, usize)>,
    pub regexes: Vec<(Pattern, usize)>,
    pub source: String,
    pub library: String,
    pub trash: bool,
}

pub open spec fn rule_views(v: Seq<Rule>) -> Seq<RuleView> {
    v.map_values(|r: Rule| r@)
}

pub open spec fn pattern_views(v: Seq<(Pattern, usize)>) -> Seq<(Seq<char>, int)> {
    v.map_values(|p: (Pattern, usize)| (p.0.source(), p.1 as int))
}

pub open spec fn mapping_views(v: Seq<(String, usize)>) -> Seq<(Seq<char>, int)> {
    v.map_values(|p: (String, usize)| (p.0@, p.1 as int))
}

impl View for Configuration {
    type V = ConfigurationView;

    open spec fn view(&self) -> ConfigurationView {
        ConfigurationView {
            rules: rule_views(self.rules@),
            mapping: mapping_views(self.mapping@),
            patterns: pattern_views(self.regexes@),
            source: self.source@,
            library: self.library@,
            trash: self.trash,
        }
    }
}

/// The sequence under the last entry with key `key`.
fn find_list<'a>(hash: &'a Vec<(ConfigValue, ConfigValue)>, key: &str) -> (r: Option<&'a Vec<ConfigValue>>)
    ensures
        keyed_list(hash@, key@) == match r {
            Some(a) => a@,
            None => Seq::empty(),
        },
{
    let mut found: Option<&Vec<ConfigValue>> = None;
    let mut i: usize = 0;
    while i < hash.len()
        invariant
            i <= hash.len(),
            keyed_list(hash@.take(i as int), key@) == match found {
                Some(a) => a@,
                None => Seq::empty(),
            },
        decreases hash.len() - i,
    {
        assert(hash@.take(i + 1).drop_last() =~= hash@.take(i as int));
        let (k, value) = &hash[i];
        if is_key(k, key) {
            found = match value {
                ConfigValue::List(a) => Some(a),
                _ => None,
            };
        }
        i = i + 1;
    }
    assert(hash@.take(hash.len() as int) =~= hash@);
    found
}

/// Compiles a configured pattern, keeping it only where it names both an
/// `episode` and a `group` capture.
fn parse_regex(item: &ConfigValue) -> (r: Option<Pattern>)
    ensures
        match r {
            Some(p) => usable_pattern(*item) == Some(p.source()),
            None => usable_pattern(*item) is None,
        },
{
    let text = match item {
        ConfigValue::Text(t) => t,
        _ => return None,
    };
    let pattern = match Pattern::compile(text.as_str()) {
        Some(p) => p,
        None => return None,
    };
    let names = pattern.group_names();
    let ghost views = names@.map_values(|s: Option<String>| opt_view(s));
    let mut has_episode = false;
    let mut has_group = false;
    let mut i: usize = 0;
    while i < names.len()
        invariant
            i <= names.len(),
            views == names@.map_values(|s: Option<String>| opt_view(s)),
            has_episode == views.take(i as int).contains(Some("episode"@)),
            has_group == views.take(i as int).contains(Some("group"@)),
        decreases names.len() - i,
    {
        assert(views.take(i + 1) =~= views.take(i as int).push(views[i as int]));
        proof {
            vstd::seq_lib::lemma_seq_contains_after_push(
                views.take(i as int),
                views[i as int],
                Some("episode"@),
            );
            vstd::seq_lib::lemma_seq_contains_after_push(
                views.take(i as int),
                views[i as int],
                Some("group"@),
            );
        }
        if let Some(name) = &names[i] {
            if str_equals(name.as_str(), "episode") {
                has_episode = true;
            }
            if str_equals(name.as_str(), "group") {
                has_group = true;
            }
        }
        i = i + 1;
    }
    assert(views.take(names.len() as int) =~= views);
    if has_episode && has_group {
        Some(pattern)
    } else {
        None
    }
}

/// Compiles the usable patterns among `items` for the rule at `index`.
fn push_patterns(patterns: &mut Vec<(Pattern, usize)>, items: &Vec<ConfigValue>, index: usize)
    ensures
        pattern_views(final(patterns)@) == pattern_views(old(patterns)@) + usable_patterns(
            items@,
        ).map_values(|p: Seq<char>| (p, index as int)),
{
    let ghost start = pattern_views(patterns@);
    let mut i: usize = 0;
    while i < items.len()
        invariant
            i <= items.len(),
            pattern_views(patterns@) == start + usable_patterns(items@.take(i as int)).map_values(
                |p: Seq<char>| (p, index as int),
            ),
        decreases items.len() - i,
    {
        assert(items@.take(i + 1).drop_last() =~= items@.take(i as int));
        let ghost prev = usable_patterns(items@.take(i as int));
        let ghost before = pattern_views(patterns@);
        if let Some(pattern) = parse_regex(&items[i]) {
            let ghost src = pattern.source();
            patterns.push((pattern, index));
            assert(usable_patterns(items@.take(i + 1)) == prev.push(src));
            assert(prev.push(src).map_values(|p: Seq<char>| (p, index as int)) =~= prev.map_values(
                |p: Seq<char>| (p, index as int),
            ).push((src, index as int)));
            assert(pattern_views(patterns@) =~= before.push((src, index as int)));
        }
        assert(pattern_views(patterns@) =~= start + usable_patterns(items@.take(i + 1)).map_values(
            |p: Seq<char>| (p, index as int),
        ));
        i = i + 1;
    }
    assert(items@.take(items.len() as int) =~= items@);
}

/// Records each string item of `items` as a name of the rule at `index`.
fn insert_aliases(mapping: &mut Vec<(String, usize)>, items: &Vec<ConfigValue>, index: usize)
    ensures
        mapping_views(final(mapping)@) == mapping_views(old(mapping)@) + string_items(
            items@,
        ).map_values(|a: Seq<char>| (a, index as int)),
{
    let ghost start = mapping_views(mapping@);
    let mut i: usize = 0;
    while i < items.len()
        invariant
            i <= items.len(),
            mapping_views(mapping@) == start + string_items(items@.take(i as int)).map_values(
                |a: Seq<char>| (a, index as int),
            ),
        decreases items.len() - i,
    {
        assert(items@.take(i + 1).drop_last() =~= items@.take(i as int));
        let ghost prev = string_items(items@.take(i as int));
        let ghost before = mapping_views(mapping@);
        if let ConfigValue::Text(alias) = &items[i] {
            mapping.push((alias.clone(), index));
            assert(string_items(items@.take(i + 1)) == prev.push(alias@));
            assert(prev.push(alias@).map_values(|a: Seq<char>| (a, index as int)) =~= prev.map_values(
                |a: Seq<char>| (a, index as int),
            ).push((alias@, index as int)));
            assert(mapping_views(mapping@) =~= before.push((alias@, index as int)));
        }
        assert(mapping_views(mapping@) =~= start + string_items(items@.take(i + 1)).map_values(
            |a: Seq<char>| (a, index as int),
        ));
        i = i + 1;
    }
    assert(items@.take(items.len() as int) =~= items@);
}

impl Configuration {
    /// Every registered name points at a rule.
    pub open spec fn wf(&self) -> bool {
        &&& forall|j: int|
            0 <= j < self@.mapping.len() ==> 0 <= #[trigger] self@.mapping[j].1 < self@.rules.len()
        &&& forall|j: int|
            0 <= j < self@.patterns.len() ==> 0 <= #[trigger] self@.patterns[j].1 < self@.rules.len()
    }

    /// Reads a configuration from the documents of a configuration file.
    pub fn new(documents: &Vec<ConfigValue>) -> (r: Result<Configuration, Error>)
        ensures
            match r {
                Ok(c) => configuration_of(documents@) == Ok::<ConfigurationView, Error>(c@) && c.wf(),
                Err(e) => configuration_of(documents@) == Err::<ConfigurationView, Error>(e),
            },
    {
        if documents.len() == 0 {
            return Err(Error::YamlError);
        }
        let empty: Vec<(ConfigValue, ConfigValue)> = Vec::new();
        let entries = match &documents[0] {
            ConfigValue::Mapping(h) => h,
            _ => &empty,
        };
        let ghost e = top_entries(documents@[0]);
        assert(entries@ == e);
        let mut library: Option<String> = None;
        let mut source: Option<String> = None;
        let mut trash = false;
        let mut rules: Vec<Rule> = Vec::new();
        let mut mapping: Vec<(String, usize)> = Vec::new();
        let mut regexes: Vec<(Pattern, usize)> = Vec::new();
        let mut i: usize = 0;
        while i < entries.len()
            invariant
                i <= entries.len(),
                entries@ == e,
                opt_view(library) == setting_text(e.take(i as int), "library"@),
                opt_view(source) == setting_text(e.take(i as int), "source"@),
                trash == trash_of(e.take(i as int)),
                rule_views(rules@) == rules_of(e.take(i as int)),
                rules@.len() <= i,
                mapping_views(mapping@) == mapping_of(e.take(i as int)),
                forall|j: int|
                    0 <= j < mapping@.len() ==> 0 <= #[trigger] mapping_views(mapping@)[j].1
                        < rules@.len(),
                pattern_views(regexes@) == patterns_of(e.take(i as int)),
                forall|j: int|
                    0 <= j < regexes@.len() ==> 0 <= #[trigger] pattern_views(regexes@)[j].1
                        < rules@.len(),
            decreases entries.len() - i,
        {
            assert(e.take(i + 1).drop_last() =~= e.take(i as int));
            let (key, value) = &entries[i];
            if is_key(key, "library") {
                if let ConfigValue::Text(v) = value {
                    library = Some(v.clone());
                }
            }
            if is_key(key, "source") {
                if let ConfigValue::Text(v) = value {
                    source = Some(v.clone());
                }
            }
            if is_key(key, "trash") {
                if let ConfigValue::Boolean(b) = value {
                    trash = *b;
                }
            }
            let reserved = is_key(key, "source") || is_key(key, "library") || is_key(key, "trash");
            if let (ConfigValue::Text(title), ConfigValue::Mapping(hash), false) = (key, value, reserved) {
                let rule = Rule::read(hash, title.clone());
                let index = rules.len();
                rules.push(rule);
                assert(rule_views(rules@) =~= rules_of(e.take(i + 1)));
                mapping.push((title.clone(), index));
                let ghost pushed = mapping_views(mapping@);
                match find_list(hash, "aliases") {
                    Some(items) => insert_aliases(&mut mapping, items, index),
                    None => {},
                }
                let ghost pats = pattern_views(regexes@);
                match find_list(hash, "regex") {
                    Some(items) => push_patterns(&mut regexes, items, index),
                    None => {},
                }
                assert(pattern_views(regexes@) =~= patterns_of(e.take(i + 1)));
                assert forall|j: int| 0 <= j < regexes@.len() implies 0
                    <= #[trigger] pattern_views(regexes@)[j].1 < rules@.len() by {
                    if j >= pats.len() {
                        assert(pattern_views(regexes@)[j].1 == index);
                    } else {
                        assert(pattern_views(regexes@)[j] == pats[j]);
                    }
                }
                assert(mapping_views(mapping@) =~= mapping_of(e.take(i + 1)));
                assert forall|j: int| 0 <= j < mapping@.len() implies 0
                    <= #[trigger] mapping_views(mapping@)[j].1 < rules@.len() by {
                    if j >= pushed.len() {
                        assert(mapping_views(mapping@)[j].1 == index);
                    } else {
                        assert(mapping_views(mapping@)[j] == pushed[j]);
                    }
                }
            } else {
                assert(rule_views(rules@) =~= rules_of(e.take(i + 1)));
                assert(mapping_views(mapping@) =~= mapping_of(e.take(i + 1)));
                assert(pattern_views(regexes@) =~= patterns_of(e.take(i + 1)));
            }
            i = i + 1;
        }
        assert(e.take(entries.len() as int) =~= e);
        let source = match source {
            Some(s) => s,
            None => return Err(Error::MissingSource),
        };
        let library = match library {
            Some(l) => l,
            None => return Err(Error::MissingLibrary),
        };
        Ok(Configuration { rules, mapping, regexes, source, library, trash })
    }

    /// The index of the rule registered under `name`, as title or alias.
    pub fn rule_index(&self, name: &str) -> (r: Option<usize>)
        ensures
            match r {
                Some(i) => rule_index_of(self@, name@) == Some(i as int),
                None => rule_index_of(self@, name@) is None,
            },
    {
        let ghost log = self@.mapping;
        let mut i: usize = self.mapping.len();
        assert(log.take(i as int) =~= log);
        while i > 0
            invariant
                i <= self.mapping@.len(),
                log == self@.mapping,
                lookup(log, name@) == lookup(log.take(i as int), name@),
            decreases i,
        {
            assert(log.take(i as int).drop_last() =~= log.take(i - 1));
            let (key, index) = &self.mapping[i - 1];
            if str_equals(key.as_str(), name) {
                if *index < self.rules.len() {
                    return Some(*index);
                }
                return None;
            }
            i = i - 1;
        }
        None
    }

    /// The rule registered under `name`, as title or alias.
    pub fn get_rule(&self, name: &str) -> (r: Option<&Rule>)
        ensures
            match r {
                Some(rule) => exists|i: int|
                    rule_index_of(self@, name@) == Some(i) && *rule == self.rules@[i],
                None => rule_index_of(self@, name@) is None,
            },
    {
        match self.rule_index(name) {
            Some(i) => Some(&self.rules[i]),
            None => None,
        }
    }
}

/// The rule that a name selects: the last registration of the name, where it
/// points at a rule.
pub open spec fn rule_index_of(c: ConfigurationView, name: Seq<char>) -> Option<int> {
    match lookup(c.mapping, name) {
        Some(i) => if 0 <= i < c.rules.len() {
            Some(i)
        } else {
            None
        },
        None => None,
    }
}

/// The path that `std::path::Path::join` gives for `name` under `dir`.
pub uninterp spec fn joined_path(dir: Seq<char>, name: Seq<char>) -> Seq<char>;

/// Relies on `std::path::Path::join`, which appends `name` to `dir` with a
/// separator; a path built from UTF-8 strings converts back without loss.
#[verifier::external_body]
fn join_path(dir: &str, name: &str) -> (r: String)
    ensures
        r@ == joined_path(dir@, name@),
{
    std::path::Path::new(dir).join(name).to_string_lossy().into_owned()
}

/// The configuration file's path: the one given on the command line, else
/// `config.yml` in the user's configuration directory, where there is one.
pub fn get_path(argument: Option<String>, config_dir: Option<String>) -> (r: Option<String>)
    ensures
        match argument {
            Some(a) => r == Some(a),
            None => match config_dir {
                Some(d) => r is Some && r->Some_0@ == joined_path(d@, "config.yml"@),
                None => r is None,
            },
        },
{
    if let Some(a) = argument {
        return Some(a);
    }
    match config_dir {
        Some(d) => Some(join_path(d.as_str(), "config.yml")),
        None => None,
    }
}

/// `items` written one after another with `sep` between each two.
pub open spec fn joined(items: Seq<Seq<char>>, sep: Seq<char>) -> Seq<char>
    decreases items.len(),
{
    if items.len() == 0 {
        Seq::empty()
    } else if items.len() == 1 {
        items[0]
    } else {
        joined(items.drop_last(), sep) + sep + items.last()
    }
}

/// A rule as one line: its title, then its groups in parentheses.
pub open spec fn rule_text(r: RuleView) -> Seq<char> {
    r.title + " ("@ + joined(r.groups, ", "@) + ")"@
}

/// Writes `items` one after another with `sep` between each two.
fn join_strings(items: &Vec<String>, sep: &str) -> (r: String)
    ensures
        r@ == joined(string_views(items@), sep@),
{
    let mut out = String::new();
    let mut i: usize = 0;
    while i < items.len()
        invariant
            i <= items.len(),
            out@ == joined(string_views(items@).take(i as int), sep@),
        decreases items.len() - i,
    {
        let ghost done = string_views(items@).take(i as int);
        assert(string_views(items@).take(i + 1).drop_last() =~= done);
        if i > 0 {
            out.append(sep);
        } else {
            assert(done =~= Seq::<Seq<char>>::empty());
        }
        out.append(items[i].as_str());
        i = i + 1;
    }
    assert(string_views(items@).take(items.len() as int) =~= string_views(items@));
    out
}

impl Rule {
    /// The rule as one line: `title (group, group, ...)`.
    pub fn describe(&self) -> (r: String)
        ensures
            r@ == rule_text(self@),
    {
        let mut out = self.title.clone();
        out.append(" (");
        let groups = join_strings(&self.groups, ", ");
        out.append(groups.as_str());
        out.append(")");
        out
    }
}

impl Configuration {
    /// The rules, one line each, every line starting with `- `.
    pub fn describe(&self) -> (r: String)
        ensures
            r@ == joined(self@.rules.map_values(|x: RuleView| "- "@ + rule_text(x)), "\n"@),
    {
        let mut lines: Vec<String> = Vec::new();
        let mut i: usize = 0;
        while i < self.rules.len()
            invariant
                i <= self.rules.len(),
                lines@.len() == i,
                string_views(lines@) == self@.rules.take(i as int).map_values(
                    |x: RuleView| "- "@ + rule_text(x),
                ),
            decreases self.rules.len() - i,
        {
            let mut line = String::from_str("- ");
            let text = self.rules[i].describe();
            line.append(text.as_str());
            let ghost prev = lines@;
            lines.push(line);
            assert(self@.rules[i as int] == self.rules@[i as int]@);
            assert forall|j: int| 0 <= j < i implies string_views(lines@)[j] == self@.rules.take(
                i + 1,
            ).map_values(|x: RuleView| "- "@ + rule_text(x))[j] by {
                assert(lines@[j] == prev[j]);
                assert(string_views(prev)[j] == self@.rules.take(i as int).map_values(
                    |x: RuleView| "- "@ + rule_text(x),
                )[j]);
            }
            assert(string_views(lines@) =~= self@.rules.take(i + 1).map_values(
                |x: RuleView| "- "@ + rule_text(x),
            ));
            i = i + 1;
        }
        assert(self@.rules.take(self.rules.len() as int) =~= self@.rules);
        join_strings(&lines, "\n")
    }
}

} // verus!
