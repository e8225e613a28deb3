use vstd::prelude::*;

verus! {

#[verifier::external_type_specification]
#[verifier::external_body]
pub struct ExRegex(regex::Regex);

/// Whether the regex crate accepts `pattern`.
pub uninterp spec fn regex_compiles(pattern: Seq<char>) -> bool;

/// The names of the capture groups of a compiled pattern, in order; none
/// for an unnamed group.
pub uninterp spec fn regex_group_names(pattern: Seq<char>) -> Seq<Option<Seq<char>>>;

/// What the pattern's first match in `text` captures under three given
/// names; none where it does not match.
pub uninterp spec fn regex_captures(
    pattern: Seq<char>,
    text: Seq<char>,
    names: (Seq<char>, Seq<char>, Seq<char>),
) -> Option<(Option<Seq<char>>, Option<Seq<char>>, Option<Seq<char>>)>;

/// Relies on `regex::Regex::new`, which compiles a pattern or reports why it
/// cannot.
#[verifier::external_body]
fn compile_regex(pattern: &str) -> (r: Option<regex::Regex>)
    ensures
        r is Some <==> regex_compiles(pattern@),
{
    regex::Regex::new(pattern).ok()
}

/// A compiled regular expression together with the text it was compiled
/// from. Only `Pattern::compile` builds one.
#[derive(Debug)]
pub struct Pattern {
    source: String,
    regex: regex::Regex,
}

/// The fields that a pattern captured from a filename.
#[derive(Debug)]
pub struct CaptureFields {
    pub group: Option<String>,
    pub episode: Option<String>,
    pub version: Option<String>,
}

pub open spec fn capture_view(c: Option<CaptureFields>) -> Option<
    (Option<Seq<char>>, Option<Seq<char>>, Option<Seq<char>>),
> {
    match c {
        Some(f) => Some((crate::text::opt_view(f.group), crate::text::opt_view(f.episode), crate::text::opt_view(f.version))),
        None => None,
    }
}

impl Pattern {
    /// The text the pattern was compiled from.
    pub closed spec fn source(&self) -> Seq<char> {
        self.source@
    }

    /// Compiles `source`; none where the regex crate rejects it.
    pub fn compile(source: &str) -> (r: Option<Pattern>)
        ensures
            r is Some <==> regex_compiles(source@),
            r matches Some(p) ==> p.source() == source@,
    {
        match compile_regex(source) {
            Some(regex) => Some(Pattern { source: source.to_owned(), regex }),
            None => None,
        }
    }

    /// Relies on `regex::Regex::capture_names`, which lists the names of the
    /// pattern's groups (the whole match first, unnamed). The regex was
    /// compiled from `source` (see `compile`).
    #[verifier::external_body]
    pub(crate) fn group_names(&self) -> (r: Vec<Option<String>>)
        ensures
            r@.map_values(|s: Option<String>| crate::text::opt_view(s)) == regex_group_names(
                self.source(),
            ),
    {
        self.regex.capture_names().map(|n| n.map(str::to_string)).collect()
    }

    /// Relies on `regex::Regex::captures`, which gives the groups of the
    /// leftmost-first match, and `Captures::name`, which reads one group by
    /// name. The regex was compiled from `source` (see `compile`).
    #[verifier::external_body]
    pub(crate) fn captures(&self, text: &str, group: &str, episode: &str, version: &str) -> (r:
        Option<CaptureFields>)
        ensures
            capture_view(r) == regex_captures(self.source(), text@, (group@, episode@, version@)),
    {
        let c = self.regex.captures(text)?;
        Some(CaptureFields {
            group: c.name(group).map(|m| m.as_str().to_string()),
            episode: c.name(episode).map(|m| m.as_str().to_string()),
            version: c.name(version).map(|m| m.as_str().to_string()),
        })
    }
}

} // verus!
