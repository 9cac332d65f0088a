//! Regular expressions, done by the `regex` crate.
use vstd::prelude::*;

use crate::project::opt_view;
use crate::project_file_builder::{simple_annotation_team, team_pattern_spec};
use crate::text::is_prefix;

verus! {

/// What `regex::Regex::new(pattern)` and then `replace(text, replacement)`
/// give: `None` when the pattern does not compile.
pub uninterp spec fn spec_regex_replace(
    pattern: Seq<char>,
    text: Seq<char>,
    replacement: Seq<char>,
) -> Option<Seq<char>>;

/// What `regex::Regex::new(pattern)`, then `captures(text)` and `get(group)`
/// give: `None` when the pattern does not compile, `Some(None)` when the text
/// does not match or the group takes no part in the match.
pub uninterp spec fn spec_regex_capture(pattern: Seq<char>, text: Seq<char>, group: usize) -> Option<
    Option<Seq<char>>,
>;

/// Compiles `pattern` with `regex::Regex::new` and replaces its leftmost
/// match in `text` with `replacement` by `Regex::replace`. The contract
/// names the result; of one pattern it says what the crate's syntax
/// documents: `^# \/` is the text `# /` at the start, and a replacement
/// without `$` is put in literally.
#[verifier::external_body]
pub(crate) fn regex_replace(pattern: &str, text: &str, replacement: &str) -> (r: Option<String>)
    ensures
        opt_view(r) == spec_regex_replace(pattern@, text@, replacement@),
        pattern@ == "^# \\/"@ && replacement@ == "/"@ ==> r is Some && r.unwrap()@ == if is_prefix(
            "# /"@,
            text@,
        ) {
            "/"@ + text@.skip(3)
        } else {
            text@
        },
{
    match regex::Regex::new(pattern) {
        Ok(re) => Some(re.replace(text, replacement).into_owned()),
        Err(_) => None,
    }
}

/// Compiles `pattern` with `regex::Regex::new`, matches it against `text`
/// with `captures`, and takes capture group `group` with `get`. The contract
/// names the result; of the team-annotation pattern it states what the
/// crate's documented syntax and leftmost-first semantics give on the plain
/// annotations: the anchored match takes the opener, ` @team` with its
/// optional `:` and the spaces, and the lazy group then has to reach the end
/// of the line, which letters, digits and underscores cannot leave to the
/// closing part.
#[verifier::external_body]
pub(crate) fn regex_capture(pattern: &str, text: &str, group: usize) -> (r: Option<Option<String>>)
    ensures
        match r {
            None => spec_regex_capture(pattern@, text@, group) is None,
            Some(c) => spec_regex_capture(pattern@, text@, group) == Some(opt_view(c)),
        },
        match r {
            Some(Some(c)) => (pattern@ == team_pattern_spec() && group == 1 && simple_annotation_team(
                text@,
            ) is Some) ==> c@ == simple_annotation_team(text@).unwrap(),
            _ => !(pattern@ == team_pattern_spec() && group == 1 && simple_annotation_team(
                text@,
            ) is Some),
        },
{
    match regex::Regex::new(pattern) {
        Ok(re) => match re.captures(text) {
            Some(caps) => match caps.get(group) {
                Some(m) => Some(Some(m.as_str().to_string())),
                None => Some(None),
            },
            None => Some(None),
        },
        Err(_) => None,
    }
}

} // verus!
