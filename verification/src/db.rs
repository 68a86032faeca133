//! Where the database is.

use vstd::prelude::*;
use vstd::string::*;

use crate::text::{before, chars_of, opt_text, same_text, strip_prefix, until};

verus! {

/// The file that a database address names.
pub open spec fn file_in(database_url: Seq<char>) -> Option<Seq<char>> {
    if !"sqlite://"@.is_prefix_of(database_url) {
        None
    } else {
        let path = before(database_url.skip("sqlite://"@.len() as int), '?');
        if path == ":memory:"@ || path.len() == 0 {
            None
        } else {
            Some(path)
        }
    }
}

/// The file that a database address names.
pub fn sqlite_file_path(database_url: &str) -> (r: Option<String>)
    ensures
        opt_text(r) == file_in(database_url@),
{
    let raw = match strip_prefix(database_url, "sqlite://") {
        Some(rest) => rest,
        None => return None,
    };
    let path = until(raw.as_str(), '?');
    if same_text(path.as_str(), ":memory:") || chars_of(path.as_str()).len() == 0 {
        None
    } else {
        Some(path)
    }
}

} // verus!
