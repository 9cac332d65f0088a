//! The team that owns files by the CODEOWNERS file alone, for paths given
//! relative to the project's root or absolute.
use vstd::prelude::*;

use crate::config::Config;
use crate::globs::{any_glob_matches, glob_list_matches};
use crate::path::is_absolute;
use crate::path_utils::{relative_to_buf, relative_to_spec};
use crate::project::{Team, TeamView};
use crate::text::starts_with;

use super::codeowners_file_parser::{opt_team_view, teams_for_paths_spec, Parser};

verus! {

/// A path relative to the project's root: an absolute path is taken
/// relative to the root, a relative one as it is.
pub open spec fn query_path_spec(root: Seq<char>, p: Seq<char>) -> Seq<char> {
    if is_absolute(p) {
        relative_to_spec(root, p)
    } else {
        p
    }
}

fn query_path(project_root: &str, file_path: &str) -> (r: String)
    ensures
        r@ == query_path_spec(project_root@, file_path@),
{
    proof {
        reveal_strlit("/");
        assert("/"@ =~= seq!['/']);
    }
    if starts_with(file_path, "/") {
        assert(file_path@.take(1)[0] == file_path@[0]);
        relative_to_buf(project_root, file_path)
    } else {
        assert(!is_absolute(file_path@)) by {
            if is_absolute(file_path@) {
                assert(file_path@.take(1) =~= "/"@);
            }
        }
        file_path.to_owned()
    }
}

/// The team that owns one file by the CODEOWNERS file whose ownership lines,
/// from the highest priority down, are `priority_lines`.
pub fn team_for_file_from_codeowners(
    project_root: &str,
    codeowners_file_path: &str,
    team_file_globs: &Vec<String>,
    file_path: &str,
    priority_lines: &Vec<String>,
    teams: &Vec<Team>,
) -> (r: Result<Option<Team>, String>)
    ensures
        match r {
            Ok(t) => teams_for_paths_spec(
                seq![query_path_spec(project_root@, file_path@)],
                priority_lines@.map_values(|l: String| l@),
                teams@.map_values(|t: Team| t@),
            ) == Some(seq![(query_path_spec(project_root@, file_path@), opt_team_view(t))]),
            Err(e) => teams_for_paths_spec(
                seq![query_path_spec(project_root@, file_path@)],
                priority_lines@.map_values(|l: String| l@),
                teams@.map_values(|t: Team| t@),
            ) is None && e@ == "Invalid line"@,
        },
{
    let relative_file_path = query_path(project_root, file_path);
    let parser = Parser {
        codeowners_file_path: codeowners_file_path.to_owned(),
        project_root: project_root.to_owned(),
        team_file_globs: crate::project::copy_strings(team_file_globs),
    };
    parser.team_from_file_path(relative_file_path.as_str(), priority_lines, teams)
}

/// For each file, the team that owns it by the CODEOWNERS file.
pub fn teams_for_files_from_codeowners(
    project_root: &str,
    codeowners_file_path: &str,
    team_file_globs: &Vec<String>,
    file_paths: &Vec<String>,
    priority_lines: &Vec<String>,
    teams: &Vec<Team>,
) -> (r: Result<Vec<(String, Option<Team>)>, String>)
    ensures
        match r {
            Ok(v) => teams_for_paths_spec(
                file_paths@.map_values(|p: String| query_path_spec(project_root@, p@)),
                priority_lines@.map_values(|l: String| l@),
                teams@.map_values(|t: Team| t@),
            ) == Some(v@.map_values(|e: (String, Option<Team>)| (e.0@, opt_team_view(e.1)))),
            Err(e) => teams_for_paths_spec(
                file_paths@.map_values(|p: String| query_path_spec(project_root@, p@)),
                priority_lines@.map_values(|l: String| l@),
                teams@.map_values(|t: Team| t@),
            ) is None && e@ == "Invalid line"@,
        },
{
    let ghost qv = file_paths@.map_values(|p: String| query_path_spec(project_root@, p@));
    let mut relative_file_paths: Vec<String> = Vec::new();
    let mut i: usize = 0;
    while i < file_paths.len()
        invariant
            i <= file_paths.len(),
            qv == file_paths@.map_values(|p: String| query_path_spec(project_root@, p@)),
            relative_file_paths@.map_values(|p: String| p@) == qv.take(i as int),
        decreases file_paths.len() - i,
    {
        let ghost before = relative_file_paths@;
        relative_file_paths.push(query_path(project_root, file_paths[i].as_str()));
        assert(relative_file_paths@.map_values(|p: String| p@) =~= before.map_values(|p: String| p@).push(
            qv[i as int],
        ));
        assert(qv.take(i + 1) =~= qv.take(i as int).push(qv[i as int]));
        i = i + 1;
    }
    assert(qv.take(file_paths.len() as int) =~= qv);
    let parser = Parser {
        codeowners_file_path: codeowners_file_path.to_owned(),
        project_root: project_root.to_owned(),
        team_file_globs: crate::project::copy_strings(team_file_globs),
    };
    parser.teams_from_files_paths(&relative_file_paths, priority_lines, teams)
}

/// The files of a list that `validate` checks: each taken relative to the
/// project's root, kept when an owned glob matches it and no unowned glob
/// does.
pub open spec fn files_to_validate_spec(
    root: Seq<char>,
    owned: Seq<Seq<char>>,
    unowned: Seq<Seq<char>>,
    paths: Seq<Seq<char>>,
) -> Seq<Seq<char>>
    decreases paths.len(),
{
    if paths.len() == 0 {
        Seq::empty()
    } else {
        let d = files_to_validate_spec(root, owned, unowned, paths.drop_last());
        let q = query_path_spec(root, paths.last());
        if any_glob_matches(owned, q) && !any_glob_matches(unowned, q) {
            d.push(q)
        } else {
            d
        }
    }
}

/// The files of `file_paths` that `validate` checks, relative to the
/// project's root, in their order.
pub fn files_to_validate(project_root: &str, config: &Config, file_paths: &Vec<String>) -> (r: Vec<String>)
    ensures
        r@.map_values(|p: String| p@) == files_to_validate_spec(
            project_root@,
            config@.owned_globs,
            config@.unowned_globs,
            file_paths@.map_values(|p: String| p@),
        ),
{
    let ghost pv = file_paths@.map_values(|p: String| p@);
    let ghost owned = config@.owned_globs;
    let ghost unowned = config@.unowned_globs;
    let mut r: Vec<String> = Vec::new();
    let mut i: usize = 0;
    assert(pv.take(0) =~= Seq::<Seq<char>>::empty());
    assert(r@.map_values(|p: String| p@) =~= Seq::<Seq<char>>::empty());
    while i < file_paths.len()
        invariant
            i <= file_paths.len(),
            pv == file_paths@.map_values(|p: String| p@),
            owned == config@.owned_globs,
            unowned == config@.unowned_globs,
            r@.map_values(|p: String| p@) == files_to_validate_spec(
                project_root@,
                owned,
                unowned,
                pv.take(i as int),
            ),
        decreases file_paths.len() - i,
    {
        assert(pv.take(i + 1).drop_last() =~= pv.take(i as int));
        assert(pv.take(i + 1).last() == file_paths@[i as int]@);
        let q = query_path(project_root, file_paths[i].as_str());
        if glob_list_matches(q.as_str(), &config.owned_globs) && !glob_list_matches(
            q.as_str(),
            &config.unowned_globs,
        ) {
            let ghost before = r@;
            r.push(q);
            assert(r@.map_values(|p: String| p@) =~= before.map_values(|p: String| p@).push(
                r@[before.len() as int]@,
            ));
        }
        i = i + 1;
    }
    assert(pv.take(file_paths.len() as int) =~= pv);
    r
}

} // verus!
