//! Splitting a stored record into its metadata block and body, and the
//! statistics of a repair pass over stored records. The repair itself
//! (pattern substitution over malformed metadata) is not part of the
//! engine and lives outside the library.

use vstd::prelude::*;

use crate::sort_emails::spec_extract_frontmatter;

verus! {

/// Statistics of one repair pass.
#[derive(Debug)]
pub struct FixStats {
    pub total_scanned: usize,
    pub files_fixed: usize,
    pub files_rewritten: usize,
    pub errors: usize,
}

impl Default for FixStats {
    /// All counters at zero.
    fn default() -> (r: FixStats)
        ensures
            r.total_scanned == 0,
            r.files_fixed == 0,
            r.files_rewritten == 0,
            r.errors == 0,
    {
        FixStats { total_scanned: 0, files_fixed: 0, files_rewritten: 0, errors: 0 }
    }
}

/// Splits a record into its metadata block and body: the text between the
/// opening `---` line and the first later line that trims to `---`, and
/// everything after that line. `None` when either delimiter is missing.
pub fn extract_frontmatter(content: &str) -> (r: Option<(String, String)>)
    ensures
        match r {
            Some(p) => spec_extract_frontmatter(content@) == Some((p.0@, p.1@)),
            None => spec_extract_frontmatter(content@) is None,
        },
{
    crate::sort_emails::extract_frontmatter(content)
}

} // verus!
