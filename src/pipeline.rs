use vstd::prelude::*;

use crate::config::{configuration_of, ConfigValue, Configuration, Error};

verus! {

/// The kind of a debounced file-system notification.
#[derive(Debug, Clone, Copy, PartialEq, Eq, Structural)]
pub enum EventKind {
    Create,
    Write,
    Other,
}

#[derive(Debug, Clone, Copy, PartialEq, Eq, Structural)]
pub enum ActionCategory {
    ReloadConfig,
    Process,
}

/// A unit of work for the consumer loop.
#[derive(Debug)]
pub struct Action {
    pub category: ActionCategory,
    pub path: String,
}

/// Whether two strings name the same path, as `std::path::Path` compares
/// them (component by component).
pub uninterp spec fn same_path(a: Seq<char>, b: Seq<char>) -> bool;

/// Relies on `PartialEq for std::path::Path`, which compares paths by their
/// components; a string names the same path as itself.
#[verifier::external_body]
fn paths_equal(a: &str, b: &str) -> (r: bool)
    ensures
        r == same_path(a@, b@),
        a@ == b@ ==> r,
{
    std::path::Path::new(a) == std::path::Path::new(b)
}

/// The action for a notification: created or written paths are processed,
/// except the configuration file itself, which is reloaded; other
/// notifications are dropped.
pub fn action_for_event(kind: EventKind, path: String, config_path: &str) -> (r: Option<Action>)
    ensures
        match kind {
            EventKind::Other => r is None,
            _ => r is Some && r->Some_0.path@ == path@ && (r->Some_0.category
                == ActionCategory::ReloadConfig <==> same_path(path@, config_path@)),
        },
{
    match kind {
        EventKind::Other => None,
        _ => {
            let category = if paths_equal(path.as_str(), config_path) {
                ActionCategory::ReloadConfig
            } else {
                ActionCategory::Process
            };
            Some(Action { category, path })
        },
    }
}

/// The configuration in force after a reload, and whether the source
/// directory is to be scanned again: a reload that failed keeps the current
/// configuration and asks for no scan; one that succeeded replaces it whole
/// and asks for a scan.
pub fn apply_reload(current: Configuration, reloaded: Result<Configuration, Error>) -> (r: (
    Configuration,
    bool,
))
    ensures
        match reloaded {
            Ok(c) => r.0 == c && r.1,
            Err(_) => r.0 == current && !r.1,
        },
{
    match reloaded {
        Ok(c) => (c, true),
        Err(_) => (current, false),
    }
}

/// Reloads from what the configuration file yielded: its documents, or the
/// error met in reading or parsing it. Whatever fails, from the file to a
/// missing setting, keeps the current configuration whole and asks for no
/// scan; otherwise the new configuration replaces it and a scan follows.
pub fn reload(current: Configuration, loaded: Result<Vec<ConfigValue>, Error>) -> (r: (
    Configuration,
    bool,
))
    ensures
        match loaded {
            Err(_) => r.0 == current && !r.1,
            Ok(documents) => match configuration_of(documents@) {
                Err(_) => r.0 == current && !r.1,
                Ok(v) => r.0@ == v && r.0.wf() && r.1,
            },
        },
{
    match loaded {
        Err(e) => apply_reload(current, Err(e)),
        Ok(documents) => apply_reload(current, Configuration::new(&documents)),
    }
}

} // verus!
