//! The team that a file names on its first line.
use vstd::prelude::*;

use crate::cache::Cache;
use crate::project::{opt_view, Error, ProjectFile, ProjectFileView};
use crate::regex_match::{regex_capture, spec_regex_capture};
use crate::text::{is_prefix, is_ws, trim_end, trim_end_spec};

verus! {

/// The pattern of a team annotation: a comment opener, `team` with an
/// optional `@` and `:`, the team, and an optional comment closer.
pub open spec fn team_pattern_spec() -> Seq<char> {
    "^(?:#|//|<!--|<%#)\\s*(?:@?team:?\\s*)(.*?)\\s*(?:-->|%>)?$"@
}

/// A character of a plain team name: an ASCII letter, digit or underscore.
pub open spec fn is_name_char(c: char) -> bool {
    ('a' <= c && c <= 'z') || ('A' <= c && c <= 'Z') || ('0' <= c && c <= '9') || c == '_'
}

/// A team name made of letters, digits and underscores only.
pub open spec fn plain_team_name(n: Seq<char>) -> bool {
    n.len() > 0 && forall|i: int| 0 <= i < n.len() ==> is_name_char(#[trigger] n[i])
}

/// The length of the comment opener that begins `t` (`#`, `//`, `<!--` or
/// `<%#`), or 0 when none does.
pub open spec fn comment_opener_len(t: Seq<char>) -> nat {
    if is_prefix(seq!['#'], t) {
        1
    } else if is_prefix(seq!['/', '/'], t) {
        2
    } else if is_prefix(seq!['<', '!', '-', '-'], t) {
        4
    } else if is_prefix(seq!['<', '%', '#'], t) {
        3
    } else {
        0
    }
}

/// The team of an annotation in its plain forms: a comment opener, then
/// ` @team ` or ` @team: `, then a plain team name that ends the line.
pub open spec fn simple_annotation_team(t: Seq<char>) -> Option<Seq<char>> {
    let o = comment_opener_len(t);
    if o == 0 {
        None
    } else {
        let rest = t.skip(o as int);
        let n = if is_prefix(seq![' ', '@', 't', 'e', 'a', 'm', ':', ' '], rest) {
            rest.skip(8)
        } else if is_prefix(seq![' ', '@', 't', 'e', 'a', 'm', ' '], rest) {
            rest.skip(7)
        } else {
            Seq::empty()
        };
        if plain_team_name(n) {
            Some(n)
        } else {
            None
        }
    }
}

/// The team that a first line names, the line taken without trailing
/// white space.
pub open spec fn first_line_team_spec(first_line: Seq<char>) -> Option<Seq<char>> {
    match spec_regex_capture(team_pattern_spec(), trim_end_spec(first_line), 1) {
        Some(Some(team)) => Some(team),
        _ => None,
    }
}

/// The team that the first line of a file names, if any.
pub fn team_from_first_line(first_line: &str) -> (r: Option<String>)
    ensures
        opt_view(r) == first_line_team_spec(first_line@),
        simple_annotation_team(first_line@) is Some ==> opt_view(r) == simple_annotation_team(
            first_line@,
        ),
{
    let line = trim_end(first_line);
    proof {
        if simple_annotation_team(first_line@) is Some {
            let s = first_line@;
            let n = simple_annotation_team(s).unwrap();
            assert(s.len() > 0 && s.last() == n.last()) by {
                assert(n.last() == n[n.len() - 1]);
            }
            assert(is_name_char(n[n.len() - 1]));
            assert(!is_ws(s.last()));
            assert(trim_end_spec(s) == s);
        }
    }
    let pattern = "^(?:#|//|<!--|<%#)\\s*(?:@?team:?\\s*)(.*?)\\s*(?:-->|%>)?$";
    match regex_capture(pattern, line.as_str(), 1) {
        Some(Some(team)) => Some(team),
        _ => None,
    }
}

/// The project file at `path` whose first line, when it could be read, is
/// `first_line`.
pub open spec fn project_file_spec(path: Seq<char>, first_line: Option<Seq<char>>) -> ProjectFileView {
    ProjectFileView {
        owner: match first_line {
            Some(line) => first_line_team_spec(line),
            None => None,
        },
        path,
    }
}

/// The project file at `path`: its owner is the team its first line names.
/// `first_line` is `None` when the file could not be opened or is empty.
pub fn build_project_file_without_cache(path: String, first_line: Option<String>) -> (r: ProjectFile)
    ensures
        r@ == project_file_spec(path@, opt_view(first_line)),
{
    let owner = match &first_line {
        Some(line) => team_from_first_line(line.as_str()),
        None => None,
    };
    ProjectFile { owner, path }
}

/// The project file at `path` as the cache remembers it, when the file has
/// not changed since: its modification time now is `timestamp`.
pub fn get_project_file_from_cache(
    cache: &Cache,
    path: &str,
    timestamp: Result<u64, Error>,
) -> (r: Result<Option<ProjectFile>, Error>)
    ensures
        !cache.entries().contains_key(path@) ==> r matches Ok(None),
        cache.entries().contains_key(path@) ==> match timestamp {
            Err(e) => r == Err::<Option<ProjectFile>, Error>(e),
            Ok(t) => if cache.entries()[path@].0 == t {
                r matches Ok(Some(f)) && f@ == (ProjectFileView {
                    owner: cache.entries()[path@].1,
                    path: path@,
                })
            } else {
                r matches Ok(None)
            },
        },
{
    match cache.get_file_owner(path, timestamp) {
        Ok(Some(entry)) => Ok(Some(ProjectFile { path: path.to_owned(), owner: entry.owner })),
        Ok(None) => Ok(None),
        Err(e) => Err(e),
    }
}

/// Remembers the owner of a project file with the file's modification time.
pub fn save_project_file_to_cache(
    cache: &mut Cache,
    project_file: &ProjectFile,
    timestamp: Result<u64, Error>,
)
    ensures
        ((*final(cache)) is Global) == ((*old(cache)) is Global),
        final(cache).entries() == if (*old(cache)) is Global && timestamp is Ok {
            old(cache).entries().insert(
                project_file.path@,
                (timestamp->Ok_0, opt_view(project_file.owner)),
            )
        } else {
            old(cache).entries()
        },
{
    let owner = crate::project::copy_opt_string(&project_file.owner);
    cache.write_file_owner(project_file.path.as_str(), timestamp, owner);
}

} // verus!
