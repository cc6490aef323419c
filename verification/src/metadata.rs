//! The descriptive metadata that goes into the archive.

use crate::cli::Cli;
use crate::text::{decimal, push_decimal, string_of, text_of};
use vstd::prelude::*;

verus! {

/// The descriptive metadata of an archive.
#[derive(Clone, Debug, PartialEq, Eq)]
pub struct Metadata {
    pub name: Option<String>,
    pub description: Option<String>,
    pub attribution: Option<String>,
    pub version: Option<String>,
}

/// The version of an archive written at `now` seconds after the epoch:
/// `1.0.0.` and that number.
pub open spec fn version_text(now: nat) -> Seq<char> {
    seq!['1', '.', '0', '.', '0', '.'] + decimal(now)
}

/// A copy of a text that may be missing.
pub fn copy_text(text: &Option<String>) -> (copy: Option<String>)
    ensures
        text_of(copy) == text_of(*text),
{
    match text {
        Some(s) => Some(s.clone()),
        None => None,
    }
}

impl Metadata {
    /// The metadata of a run that starts `now_secs` seconds after the epoch:
    /// name, description and attribution as the options give them, and the
    /// version stamped with the time.
    pub fn new(cli: &Cli, now_secs: u64) -> (m: Metadata)
        ensures
            text_of(m.name) == text_of(cli.name),
            text_of(m.description) == text_of(cli.description),
            text_of(m.attribution) == text_of(cli.attribution),
            text_of(m.version) == Some(version_text(now_secs as nat)),
    {
        let mut version: Vec<char> = vec!['1', '.', '0', '.', '0', '.'];
        assert(version@ =~= seq!['1', '.', '0', '.', '0', '.']);
        push_decimal(now_secs, &mut version);
        Metadata {
            name: copy_text(&cli.name),
            description: copy_text(&cli.description),
            attribution: copy_text(&cli.attribution),
            version: Some(string_of(&version)),
        }
    }
}

} // verus!
