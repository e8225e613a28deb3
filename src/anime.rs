use vstd::prelude::*;

use anitomy::ElementCategory;

use crate::pattern::CaptureFields;
use crate::text::{contains_char, i32_of, opt_view, parse_i32, str_equals};

verus! {

/// The kind of media a release holds.
#[derive(Debug, Clone, Copy, PartialEq, Eq, Structural)]
pub enum EpisodeType {
    Ending,
    Episode,
    Movie,
    Opening,
    Other,
    OVA,
    Preview,
    Special,
}

/// The episode type named by the parser's type tag.
pub open spec fn episode_type_of(tag: Option<Seq<char>>) -> EpisodeType {
    match tag {
        None => EpisodeType::Episode,
        Some(t) => if t == "ED"@ {
            EpisodeType::Ending
        } else if t == "Gekijouban"@ || t == "Movie"@ {
            EpisodeType::Movie
        } else if t == "OP"@ {
            EpisodeType::Opening
        } else if t == "OVA"@ {
            EpisodeType::OVA
        } else if t == "Preview"@ || t == "PV"@ {
            EpisodeType::Preview
        } else if t == "SP"@ {
            EpisodeType::Special
        } else if t == "TV"@ {
            EpisodeType::Episode
        } else {
            EpisodeType::Other
        },
    }
}

impl EpisodeType {
    pub fn from_element(value: Option<&str>) -> (r: EpisodeType)
        ensures
            r == episode_type_of(
                match value {
                    Some(t) => Some(t@),
                    None => None,
                },
            ),
    {
        match value {
            None => EpisodeType::Episode,
            Some(t) => if str_equals(t, "ED") {
                EpisodeType::Ending
            } else if str_equals(t, "Gekijouban") || str_equals(t, "Movie") {
                EpisodeType::Movie
            } else if str_equals(t, "OP") {
                EpisodeType::Opening
            } else if str_equals(t, "OVA") {
                EpisodeType::OVA
            } else if str_equals(t, "Preview") || str_equals(t, "PV") {
                EpisodeType::Preview
            } else if str_equals(t, "SP") {
                EpisodeType::Special
            } else if str_equals(t, "TV") {
                EpisodeType::Episode
            } else {
                EpisodeType::Other
            },
        }
    }
}

/// What a filename says about the media it names.
#[derive(Debug)]
pub struct Release {
    pub title: String,
    pub group: String,
    pub episode: String,
    pub version: i32,
    pub episode_type: EpisodeType,
}

pub struct ReleaseView {
    pub title: Seq<char>,
    pub group: Seq<char>,
    pub episode: Seq<char>,
    pub version: i32,
    pub episode_type: EpisodeType,
}

impl View for Release {
    type V = ReleaseView;

    open spec fn view(&self) -> ReleaseView {
        ReleaseView {
            title: self.title@,
            group: self.group@,
            episode: self.episode@,
            version: self.version,
            episode_type: self.episode_type,
        }
    }
}

pub open spec fn opt_release_view(r: Option<Release>) -> Option<ReleaseView> {
    match r {
        Some(x) => Some(x@),
        None => None,
    }
}

/// The elements of a filename that the release model reads, as the parser
/// found them: title, release group, episode number, release version and type.
pub struct ParsedElements {
    pub title: Option<String>,
    pub group: Option<String>,
    pub episode: Option<String>,
    pub version: Option<String>,
    pub kind: Option<String>,
}

impl View for ParsedElements {
    type V = (Option<Seq<char>>, Option<Seq<char>>, Option<Seq<char>>, Option<Seq<char>>, Option<Seq<char>>);

    open spec fn view(&self) -> Self::V {
        (
            opt_view(self.title),
            opt_view(self.group),
            opt_view(self.episode),
            opt_view(self.version),
            opt_view(self.kind),
        )
    }
}

/// The elements that anitomy finds in a filename (title, group, episode,
/// version, type), each the first of its category.
pub uninterp spec fn anitomy_elements(filename: Seq<char>) -> (
    Option<Seq<char>>,
    Option<Seq<char>>,
    Option<Seq<char>>,
    Option<Seq<char>>,
    Option<Seq<char>>,
);

/// Relies on `anitomy::Anitomy::parse` with default options, which returns the
/// elements it found whether or not it deems the parse a success, and on
/// `Elements::get`, which gives the first element of a category. The parse
/// panics on a NUL character, so none may occur.
#[verifier::external_body]
fn parse_elements(filename: &str) -> (r: ParsedElements)
    requires
        !filename@.contains('\0'),
    ensures
        r@ == anitomy_elements(filename@),
{
    let e = match anitomy::Anitomy::new().parse(filename) {
        Ok(e) | Err(e) => e,
    };
    ParsedElements {
        title: e.get(ElementCategory::AnimeTitle).map(str::to_string),
        group: e.get(ElementCategory::ReleaseGroup).map(str::to_string),
        episode: e.get(ElementCategory::EpisodeNumber).map(str::to_string),
        version: e.get(ElementCategory::ReleaseVersion).map(str::to_string),
        kind: e.get(ElementCategory::AnimeType).map(str::to_string),
    }
}

/// A release's version as its tag gives it: the integer the tag writes where
/// that is at least 1, else 1.
pub open spec fn version_of(tag: Option<Seq<char>>) -> i32 {
    match tag {
        Some(v) => match i32_of(v) {
            Some(n) => if n >= 1 {
                n
            } else {
                1
            },
            None => 1,
        },
        None => 1,
    }
}

fn read_version(tag: &Option<String>) -> (r: i32)
    ensures
        r == version_of(opt_view(*tag)),
        r >= 1,
{
    match tag {
        Some(v) => match parse_i32(v.as_str()) {
            Some(n) => if n >= 1 {
                n
            } else {
                1
            },
            None => 1,
        },
        None => 1,
    }
}

/// The release that parsed elements describe: title and group are required,
/// the episode defaults to "-1", the version to 1 (also when it is not an
/// integer of at least 1), and the type to an ordinary episode.
pub open spec fn release_of_elements(
    e: (Option<Seq<char>>, Option<Seq<char>>, Option<Seq<char>>, Option<Seq<char>>, Option<Seq<char>>),
) -> Option<ReleaseView> {
    match (e.0, e.1) {
        (Some(title), Some(group)) => Some(
            ReleaseView {
                title,
                group,
                episode: match e.2 {
                    Some(ep) => ep,
                    None => "-1"@,
                },
                version: version_of(e.3),
                episode_type: episode_type_of(e.4),
            },
        ),
        _ => None,
    }
}

/// The release that a pattern's captures describe, for the title of the rule
/// that owns the pattern: group and episode are required, the version
/// defaults to 1 (also when it is not an integer of at least 1), and the type is an
/// ordinary episode.
pub open spec fn release_of_captures(
    title: Seq<char>,
    c: (Option<Seq<char>>, Option<Seq<char>>, Option<Seq<char>>),
) -> Option<ReleaseView> {
    match (c.0, c.1) {
        (Some(group), Some(episode)) => Some(
            ReleaseView {
                title,
                group,
                episode,
                version: version_of(c.2),
                episode_type: EpisodeType::Episode,
            },
        ),
        _ => None,
    }
}

/// The release read from a filename: none for a name with a NUL character,
/// else the release that anitomy's elements describe.
pub open spec fn release_of_filename(filename: Seq<char>) -> Option<ReleaseView> {
    if filename.contains('\0') {
        None
    } else {
        release_of_elements(anitomy_elements(filename))
    }
}

fn copy_opt(s: &Option<String>) -> (r: Option<String>)
    ensures
        opt_view(r) == opt_view(*s),
{
    match s {
        Some(x) => Some(x.clone()),
        None => None,
    }
}

impl Release {
    /// Builds a release from parsed elements.
    pub fn from_elements(elements: &ParsedElements) -> (r: Option<Release>)
        ensures
            opt_release_view(r) == release_of_elements(elements@),
    {
        let title = match copy_opt(&elements.title) {
            Some(t) => t,
            None => return None,
        };
        let group = match copy_opt(&elements.group) {
            Some(g) => g,
            None => return None,
        };
        let episode = match &elements.episode {
            Some(ep) => ep.clone(),
            None => String::from_str("-1"),
        };
        let version = read_version(&elements.version);
        let kind = match &elements.kind {
            Some(k) => Some(k.as_str()),
            None => None,
        };
        let episode_type = EpisodeType::from_element(kind);
        Some(Release { title, group, episode, version, episode_type })
    }

    /// Builds a release from what a rule's pattern captured.
    pub fn from_captures(title: &str, captures: &CaptureFields) -> (r: Option<Release>)
        ensures
            opt_release_view(r) == release_of_captures(
                title@,
                (opt_view(captures.group), opt_view(captures.episode), opt_view(captures.version)),
            ),
    {
        let group = match copy_opt(&captures.group) {
            Some(g) => g,
            None => return None,
        };
        let episode = match copy_opt(&captures.episode) {
            Some(e) => e,
            None => return None,
        };
        let version = read_version(&captures.version);
        Some(
            Release {
                title: title.to_owned(),
                group,
                episode,
                version,
                episode_type: EpisodeType::Episode,
            },
        )
    }

    /// Reads a release from a filename; none where the filename lacks a title
    /// or a release group.
    pub fn from(filename: &str) -> (r: Option<Release>)
        ensures
            opt_release_view(r) == release_of_filename(filename@),
    {
        if contains_char(filename, '\0') {
            return None;
        }
        let elements = parse_elements(filename);
        Release::from_elements(&elements)
    }

    /// The episode as an integer, where it is one.
    pub fn numerical_episode(&self) -> (r: Option<i32>)
        ensures
            r == i32_of(self.episode@),
    {
        parse_i32(self.episode.as_str())
    }
}

} // verus!
