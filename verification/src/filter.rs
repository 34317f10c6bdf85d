//! Selecting files by the configured regular expression.
use vstd::prelude::*;

use crate::error::SyncError;
use crate::text::{last_segment, last_segment_of};

verus! {

#[verifier::external_type_specification]
#[verifier::external_body]
pub struct ExRegex(regex::Regex);

/// What `regex::Regex::new(pattern)` refuses the pattern with: `None` when the pattern
/// compiles, otherwise the `Display` text of the error (which names the pattern and the fault).
pub uninterp spec fn regex_build_error(pattern: Seq<char>) -> Option<Seq<char>>;

/// Whether the regex compiled from `pattern` matches somewhere in `haystack`
/// (`regex::Regex::is_match`).
pub uninterp spec fn regex_finds(pattern: Seq<char>, haystack: Seq<char>) -> bool;

/// A compiled file-name pattern together with the text it was compiled from.
///
/// Its fields are private and `compile_filter` is the only place that makes one, pairing the
/// pattern with what `regex::Regex::new` returned for it.
pub struct NameFilter {
    pattern: String,
    compiled: regex::Regex,
}

impl View for NameFilter {
    type V = Seq<char>;

    /// The pattern the filter was compiled from.
    closed spec fn view(&self) -> Seq<char> {
        self.pattern@
    }
}

/// Calls `regex::Regex::is_match` on the filter's compiled regex. Claims that the answer is the
/// named one for the filter's pattern and the haystack.
#[verifier::external_body]
fn regex_is_match(filter: &NameFilter, haystack: &str) -> (b: bool)
    ensures
        b == regex_finds(filter@, haystack@),
{
    filter.compiled.is_match(haystack)
}

/// Calls `regex::Regex::new` and packs the compiled regex with the pattern it came from; a
/// refusal becomes the error's `Display` text. Claims that the outcome is the named one for
/// the pattern (it depends on the pattern alone) and that the filter holds that pattern.
#[verifier::external_body]
fn compile_filter(pattern: &str) -> (r: Result<NameFilter, String>)
    ensures
        match r {
            Ok(f) => regex_build_error(pattern@) is None && f@ == pattern@,
            Err(message) => regex_build_error(pattern@) == Some(message@),
        },
{
    match regex::Regex::new(pattern) {
        Ok(compiled) => Ok(NameFilter { pattern: pattern.to_string(), compiled }),
        Err(e) => Err(e.to_string()),
    }
}

impl NameFilter {
    /// Compiles `pattern`; refused, with the compiler's message, when it does not compile.
    pub fn new(pattern: &str) -> (r: Result<NameFilter, SyncError>)
        ensures
            r is Ok <==> regex_build_error(pattern@) is None,
            r matches Ok(f) ==> f@ == pattern@,
            match r {
                Err(SyncError::InvalidPattern(message)) => regex_build_error(pattern@) == Some(
                    message@,
                ),
                Err(_) => false,
                Ok(_) => true,
            },
    {
        match compile_filter(pattern) {
            Ok(filter) => Ok(filter),
            Err(message) => Err(SyncError::InvalidPattern(message)),
        }
    }

    /// Whether a file name is selected: the pattern matches somewhere in it.
    pub fn matches_file_name(&self, name: &str) -> (b: bool)
        ensures
            b == regex_finds(self@, name@),
    {
        regex_is_match(self, name)
    }

    /// Whether an object key is selected: the pattern matches somewhere in the part of the
    /// key after its last `/`.
    pub fn matches_key(&self, key: &str) -> (b: bool)
        ensures
            b == regex_finds(self@, last_segment(key@)),
    {
        regex_is_match(self, last_segment_of(key))
    }
}

} // verus!
