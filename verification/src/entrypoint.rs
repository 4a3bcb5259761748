//! The entrypoint of the configuration file: one line of shell syntax,
//! taken apart into words.

use vstd::prelude::*;
use crate::config::opt_strings;

verus! {

/// The words that `text` holds by the quoting rules of a POSIX shell:
/// blanks part words, quotes and backslashes keep blanks inside one, and
/// `#` begins a comment. `None` where a quote is left open.
pub uninterp spec fn shell_split(text: Seq<char>) -> Option<Seq<Seq<char>>>;

/// Splits `text` with `shell_words::split`. The outcome depends on `text`
/// alone; the contract names it, with the parse error taken as `None`, and
/// claims no more of it.
#[verifier::external_body]
fn split_words(text: &str) -> (r: Option<Vec<String>>)
    ensures
        opt_strings(r) == shell_split(text@),
{
    shell_words::split(text).ok()
}

/// An entrypoint line that is no valid shell syntax.
#[derive(Debug, Clone, PartialEq, Eq)]
pub struct EntrypointError {
    /// The line as it was written.
    pub text: String,
}

/// The view of a result that holds the words of an entrypoint, or the
/// line that could not be split.
pub open spec fn entrypoint_view(r: Result<Option<Vec<String>>, EntrypointError>) -> Result<
    Option<Seq<Seq<char>>>,
    Seq<char>,
> {
    match r {
        Ok(words) => Ok(opt_strings(words)),
        Err(e) => Err(e.text@),
    }
}

/// The entrypoint that a configuration has, given the line `raw` that it
/// holds, if any, and the words `split` that the line was taken apart
/// into: no entrypoint without a line, the words where there are words,
/// and an error that holds the line where it could not be split.
pub open spec fn entrypoint_spec(raw: Option<Seq<char>>, split: Option<Seq<Seq<char>>>) -> Result<
    Option<Seq<Seq<char>>>,
    Seq<char>,
> {
    match raw {
        None => Ok(None),
        Some(text) => match split {
            Some(words) => Ok(Some(words)),
            None => Err(text),
        },
    }
}

/// The entrypoint for the line `raw` and the words `split` it was taken
/// apart into.
pub fn entrypoint_from(raw: Option<&str>, split: Option<Vec<String>>) -> (r: Result<
    Option<Vec<String>>,
    EntrypointError,
>)
    ensures
        entrypoint_view(r) == entrypoint_spec(crate::text::opt_view(raw), opt_strings(split)),
{
    match raw {
        None => Ok(None),
        Some(text) => match split {
            Some(words) => Ok(Some(words)),
            None => Err(EntrypointError { text: text.to_owned() }),
        },
    }
}

/// Reads the entrypoint of a configuration: the line `raw`, if there is
/// one, taken apart into words as a shell would.
pub fn parse_entrypoint(raw: Option<&str>) -> (r: Result<Option<Vec<String>>, EntrypointError>)
    ensures
        entrypoint_view(r) == entrypoint_spec(
            crate::text::opt_view(raw),
            match raw {
                Some(text) => shell_split(text@),
                None => None,
            },
        ),
{
    match raw {
        None => entrypoint_from(raw, None),
        Some(text) => entrypoint_from(raw, split_words(text)),
    }
}

} // verus!
