//! Glob matching, done by the `fast-glob` and `glob` crates.
use vstd::prelude::*;

verus! {

/// What `fast_glob::glob_match` answers for a pattern and a path.
pub uninterp spec fn spec_glob_match(glob: Seq<char>, path: Seq<char>) -> bool;

/// Calls `fast_glob::glob_match`. The contract claims only that the answer
/// is determined by the text of the pattern and of the path; the crate's own
/// syntax (`*`, `**`, `?`, classes, braces, `!`, escapes) is left unstated.
#[verifier::external_body]
pub(crate) fn glob_match(glob: &str, path: &str) -> (r: bool)
    ensures
        r == spec_glob_match(glob@, path@),
{
    fast_glob::glob_match(glob, path)
}

/// Whether `glob::Pattern::new` accepts a pattern.
pub uninterp spec fn spec_pattern_valid(glob: Seq<char>) -> bool;

/// What `glob::Pattern::matches` answers for a path, on the pattern that
/// `glob::Pattern::new` built from `glob`.
pub uninterp spec fn spec_pattern_matches(glob: Seq<char>, path: Seq<char>) -> bool;

/// Calls `glob::Pattern::new` and, on the pattern it builds, `matches` (with
/// the default match options): `None` when the pattern is refused. The
/// contract claims that both answers are determined by the texts; the pattern
/// syntax is left unstated.
#[verifier::external_body]
pub(crate) fn pattern_match(glob: &str, path: &str) -> (r: Option<bool>)
    ensures
        r is Some == spec_pattern_valid(glob@),
        r is Some ==> r.unwrap() == spec_pattern_matches(glob@, path@),
{
    match glob::Pattern::new(glob) {
        Ok(pattern) => Some(pattern.matches(path)),
        Err(_) => None,
    }
}

/// Whether some glob of `globs` matches `path`.
pub open spec fn any_glob_matches(globs: Seq<Seq<char>>, path: Seq<char>) -> bool {
    exists|i: int| 0 <= i < globs.len() && spec_glob_match(#[trigger] globs[i], path)
}

/// Whether some glob of `globs` matches `path` (`iter().any(glob_match)`).
pub fn glob_list_matches(path: &str, globs: &Vec<String>) -> (r: bool)
    ensures
        r == any_glob_matches(globs@.map_values(|g: String| g@), path@),
{
    let ghost gv = globs@.map_values(|g: String| g@);
    let mut i: usize = 0;
    while i < globs.len()
        invariant
            i <= globs.len(),
            gv == globs@.map_values(|g: String| g@),
            forall|j: int| 0 <= j < i ==> !spec_glob_match(#[trigger] gv[j], path@),
        decreases globs.len() - i,
    {
        if glob_match(globs[i].as_str(), path) {
            assert(spec_glob_match(gv[i as int], path@));
            return true;
        }
        i = i + 1;
    }
    false
}

} // verus!
