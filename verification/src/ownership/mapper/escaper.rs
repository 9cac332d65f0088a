//! Escaping of the characters that globs treat specially in path text.
use vstd::prelude::*;

use crate::text::{replace, replace_spec};

verus! {

/// The path with each `[` and `]` preceded by a backslash.
pub open spec fn escape_spec(path: Seq<char>) -> Seq<char> {
    replace_spec(replace_spec(path, seq!['['], seq!['\\', '[']), seq![']'], seq!['\\', ']'])
}

/// Escapes the brackets of a path so that a glob matches them literally.
pub fn escape_brackets(path: &str) -> (r: String)
    ensures
        r@ == escape_spec(path@),
{
    proof {
        reveal_strlit("[");
        reveal_strlit("\\[");
        reveal_strlit("]");
        reveal_strlit("\\]");
        assert("["@ =~= seq!['[']);
        assert("\\["@ =~= seq!['\\', '[']);
        assert("]"@ =~= seq![']']);
        assert("\\]"@ =~= seq!['\\', ']']);
    }
    let a = replace(path, "[", "\\[");
    replace(a.as_str(), "]", "\\]")
}

} // verus!
