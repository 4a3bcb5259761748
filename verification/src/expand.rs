//! Directories of the configuration file: a leading `~` stands for the
//! user's home, and a path that exists is taken in its canonical form.

use vstd::prelude::*;
use crate::paths::{is_absolute, join, join_path, path_is_absolute, relative_to, strip_base};
use crate::snapshot::{lookup, FsSnapshot, PathFactsView};
use crate::text::opt_view;

verus! {

/// Why a directory of the configuration could not be expanded.
#[derive(Debug, Clone, PartialEq, Eq)]
pub enum ExpandError {
    /// The path begins with `~`, and the home directory is not known.
    HomeNotSet,
    /// The filesystem snapshot says nothing about `path` yet.
    Unprobed { path: String },
}

/// What an `ExpandError` holds, as plain sequences.
pub enum ExpandErrorView {
    HomeNotSet,
    Unprobed { path: Seq<char> },
}

impl View for ExpandError {
    type V = ExpandErrorView;

    open spec fn view(&self) -> ExpandErrorView {
        match self {
            ExpandError::HomeNotSet => ExpandErrorView::HomeNotSet,
            ExpandError::Unprobed { path } => ExpandErrorView::Unprobed { path: path@ },
        }
    }
}

impl ExpandError {
    /// The sentence that reports this error.
    pub fn message(&self) -> (r: String)
        ensures
            r@ == match self@ {
                ExpandErrorView::HomeNotSet => "Failed to get HOME environment variable when expanding ~"@,
                ExpandErrorView::Unprobed { path } => "Nothing is known about path: "@ + path,
            },
    {
        match self {
            ExpandError::HomeNotSet => "Failed to get HOME environment variable when expanding ~".to_owned(),
            ExpandError::Unprobed { path } => crate::text::concat(
                "Nothing is known about path: ",
                path.as_str(),
            ),
        }
    }
}

/// `path` with `~` as its first component replaced by `home`. `None`
/// where that is called for and no home is known.
pub open spec fn with_home(path: Seq<char>, home: Option<Seq<char>>) -> Option<Seq<char>> {
    match relative_to("~"@, path) {
        Some(rest) => match home {
            Some(h) => Some(join_path(h, rest)),
            None => None,
        },
        None => Some(path),
    }
}

/// The directory that `path` stands for: `~` expanded; then the canonical
/// form where the path exists, and else the path made absolute below
/// `current_dir`.
pub open spec fn expand_path_spec(
    path: Seq<char>,
    home: Option<Seq<char>>,
    current_dir: Seq<char>,
    fs: Seq<PathFactsView>,
) -> Result<Seq<char>, ExpandErrorView> {
    match with_home(path, home) {
        None => Err(ExpandErrorView::HomeNotSet),
        Some(full) => match lookup(fs, full) {
            None => Err(ExpandErrorView::Unprobed { path: full }),
            Some(facts) => match facts.canonical {
                Some(canonical) => Ok(canonical),
                None => if is_absolute(full) {
                    Ok(full)
                } else {
                    Ok(join_path(current_dir, full))
                },
            },
        },
    }
}

/// The view of a result that holds a path or the reason why there is none.
pub open spec fn expand_result_view(r: Result<String, ExpandError>) -> Result<
    Seq<char>,
    ExpandErrorView,
> {
    match r {
        Ok(p) => Ok(p@),
        Err(e) => Err(e@),
    }
}

/// Expands a directory of the configuration.
///
/// Fails with `HomeNotSet` if and only if `path` is `~` or begins with
/// `~/` and `home` is `None`; else with `Unprobed` if and only if `fs`
/// holds nothing about the path with `~` expanded.
pub fn expand_path(path: &str, home: Option<&str>, current_dir: &str, fs: &FsSnapshot) -> (r: Result<
    String,
    ExpandError,
>)
    ensures
        expand_result_view(r) == expand_path_spec(path@, opt_view(home), current_dir@, fs@),
{
    let full = match strip_base("~", path) {
        Some(rest) => match home {
            Some(h) => join(h, rest.as_str()),
            None => {
                return Err(ExpandError::HomeNotSet);
            },
        },
        None => path.to_owned(),
    };
    match fs.find(full.as_str()) {
        None => Err(ExpandError::Unprobed { path: full }),
        Some(facts) => match &facts.canonical {
            Some(canonical) => Ok(canonical.clone()),
            None => if path_is_absolute(full.as_str()) {
                Ok(full)
            } else {
                Ok(join(current_dir, full.as_str()))
            },
        },
    }
}

} // verus!
