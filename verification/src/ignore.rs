//! Paths that ignore rules (shell globs of the `glob` crate) cover.
use vstd::prelude::*;

use crate::globs::{pattern_match, spec_pattern_matches, spec_pattern_valid};

verus! {

/// The rules are tried in order until one matches; every rule tried must be
/// a valid pattern.
pub open spec fn rules_checkable(rules: Seq<Seq<char>>, path: Seq<char>) -> bool {
    forall|i: int|
        0 <= i < rules.len() && (forall|j: int| 0 <= j < i ==> !spec_pattern_matches(#[trigger] rules[j], path))
            ==> spec_pattern_valid(#[trigger] rules[i])
}

/// Whether some rule matches the path.
pub open spec fn matches_path_spec(rules: Seq<Seq<char>>, path: Seq<char>) -> bool {
    exists|i: int| 0 <= i < rules.len() && spec_pattern_matches(#[trigger] rules[i], path)
}

/// Whether some ignore rule matches the path. A rule that is not a valid
/// pattern is a fault once it is reached, so `requires` asks that every
/// rule tried before a match is valid.
pub fn matches_path(ignore_globs: &Vec<String>, path: &str) -> (r: bool)
    requires
        rules_checkable(ignore_globs@.map_values(|g: String| g@), path@),
    ensures
        r == matches_path_spec(ignore_globs@.map_values(|g: String| g@), path@),
{
    let ghost rv = ignore_globs@.map_values(|g: String| g@);
    let mut i: usize = 0;
    while i < ignore_globs.len()
        invariant
            i <= ignore_globs.len(),
            rv == ignore_globs@.map_values(|g: String| g@),
            rules_checkable(rv, path@),
            forall|j: int| 0 <= j < i ==> !spec_pattern_matches(#[trigger] rv[j], path@),
        decreases ignore_globs.len() - i,
    {
        assert(rv[i as int] == ignore_globs@[i as int]@);
        assert(spec_pattern_valid(rv[i as int]));
        match pattern_match(ignore_globs[i].as_str(), path) {
            Some(true) => {
                return true;
            },
            _ => {},
        }
        i = i + 1;
    }
    false
}

/// Whether some ignore rule matches the path; `None` when a rule that is
/// tried before any match is not a valid pattern.
pub fn try_matches_path(ignore_globs: &Vec<String>, path: &str) -> (r: Option<bool>)
    ensures
        r is Some == rules_checkable(ignore_globs@.map_values(|g: String| g@), path@),
        r is Some ==> r.unwrap() == matches_path_spec(ignore_globs@.map_values(|g: String| g@), path@),
{
    let ghost rv = ignore_globs@.map_values(|g: String| g@);
    let mut i: usize = 0;
    while i < ignore_globs.len()
        invariant
            i <= ignore_globs.len(),
            rv == ignore_globs@.map_values(|g: String| g@),
            forall|j: int| 0 <= j < i ==> !spec_pattern_matches(#[trigger] rv[j], path@),
            forall|j: int| 0 <= j < i ==> spec_pattern_valid(#[trigger] rv[j]),
        decreases ignore_globs.len() - i,
    {
        assert(rv[i as int] == ignore_globs@[i as int]@);
        match pattern_match(ignore_globs[i].as_str(), path) {
            None => {
                assert(!rules_checkable(rv, path@)) by {
                    assert(!spec_pattern_valid(rv[i as int]));
                }
                return None;
            },
            Some(true) => {
                assert(rules_checkable(rv, path@)) by {
                    assert forall|k: int|
                        0 <= k < rv.len() && (forall|j: int|
                            0 <= j < k ==> !spec_pattern_matches(#[trigger] rv[j], path@)) implies spec_pattern_valid(
                        #[trigger] rv[k],
                    ) by {
                        if k > i {
                            assert(spec_pattern_matches(rv[i as int], path@));
                        }
                    }
                }
                return Some(matches_path(ignore_globs, path));
            },
            Some(false) => {},
        }
        i = i + 1;
    }
    Some(matches_path(ignore_globs, path))
}

} // verus!
