//! The reports that the commands hand back to the user.
use vstd::prelude::*;

use crate::ownership::validator::{errors_text, Errors};
use crate::ownership::{
    default_file_owner_spec, file_owner_text, owned_globs_of, sorted_source_texts, FileOwner, FileOwnerView, TeamOwnership,
    TeamOwnershipView,
};
use crate::path_utils::{relative_to, relative_to_spec};
use crate::project::{Team, TeamView};
use crate::sort::{sort_texts, stable_sorted};
use crate::text::{concat, join, join_spec, push_str, text_le, to_owned_string};

pub mod types;

pub use types::{Error, ForFileResult, RunConfig, RunResult};

verus! {

/// The version of the program.
pub fn version() -> (r: String)
    ensures
        r@ == "0.1.0"@,
{
    to_owned_string("0.1.0")
}

pub open spec fn texts(v: Vec<String>) -> Seq<Seq<char>> {
    v@.map_values(|s: String| s@)
}

/// The report of `validate`: nothing when the project is valid, the
/// problems otherwise.
pub fn validate_report(result: &Result<(), Errors>) -> (r: RunResult)
    ensures
        texts(r.io_errors).len() == 0,
        texts(r.info_messages).len() == 0,
        texts(r.validation_errors) == match result {
            Ok(()) => Seq::<Seq<char>>::empty(),
            Err(es) => seq![errors_text(es@)],
        },
{
    let mut r = RunResult::default();
    if let Err(errors) = result {
        r.validation_errors.push(errors.to_text());
    }
    assert(texts(r.validation_errors) =~= match result {
        Ok(()) => Seq::<Seq<char>>::empty(),
        Err(es) => seq![errors_text(es@)],
    });
    assert(texts(r.io_errors) =~= Seq::<Seq<char>>::empty());
    r
}

/// The report of `for-team`: a title, the heading `## Owned Files`, then
/// every glob the team owns, sorted, one per line; the error when the
/// report cannot be made.
pub fn for_team_report(team_name: &str, result: Result<Vec<TeamOwnership>, String>) -> (r: RunResult)
    ensures
        texts(r.validation_errors).len() == 0,
        match result {
            Ok(v) => texts(r.io_errors).len() == 0 && texts(r.info_messages) == seq![
                "# Code Ownership Report for `"@ + team_name@ + "` Team"@,
                "\n## Owned Files"@,
            ] + stable_sorted(
                owned_globs_of(v@.map_values(|t: TeamOwnership| t@)),
                |a: Seq<char>, b: Seq<char>| text_le(a, b),
            ),
            Err(e) => texts(r.info_messages).len() == 0 && texts(r.io_errors) == seq![e@],
        },
{
    let mut r = RunResult::default();
    assert(texts(r.io_errors) =~= Seq::<Seq<char>>::empty());
    assert(texts(r.info_messages) =~= Seq::<Seq<char>>::empty());
    assert(texts(r.validation_errors) =~= Seq::<Seq<char>>::empty());
    match result {
        Ok(sections) => {
            let ghost sv = sections@.map_values(|t: TeamOwnership| t@);
            let mut all: Vec<String> = Vec::new();
            let mut i: usize = 0;
            assert(owned_globs_of(sv.take(0)) =~= Seq::<Seq<char>>::empty());
            while i < sections.len()
                invariant
                    i <= sections.len(),
                    sv == sections@.map_values(|t: TeamOwnership| t@),
                    texts(all) == owned_globs_of(sv.take(i as int)),
                decreases sections.len() - i,
            {
                let section = &sections[i];
                let ghost start = texts(all);
                let ghost gv = section@.globs;
                let mut j: usize = 0;
                assert(gv.take(0) =~= Seq::<Seq<char>>::empty());
                assert(start + gv.take(0) =~= start);
                while j < section.globs.len()
                    invariant
                        j <= section.globs.len(),
                        gv == section.globs@.map_values(|g: String| g@),
                        texts(all) == start + gv.take(j as int),
                    decreases section.globs.len() - j,
                {
                    let ghost before = all@;
                    all.push(section.globs[j].clone());
                    assert(texts(all) =~= before.map_values(|s: String| s@).push(gv[j as int]));
                    assert(gv.take(j + 1) =~= gv.take(j as int).push(gv[j as int]));
                    j = j + 1;
                }
                proof {
                    assert(gv.take(section.globs.len() as int) =~= gv);
                    assert(sv[i as int] == section@);
                    let m = sv.take(i + 1).map_values(|t: TeamOwnershipView| t.globs);
                    assert(m.drop_last() =~= sv.take(i as int).map_values(|t: TeamOwnershipView| t.globs));
                    assert(m.last() == gv);
                }
                i = i + 1;
            }
            assert(sv.take(sections.len() as int) =~= sv);
            let sorted = sort_texts(all);
            let mut title = concat("# Code Ownership Report for `", team_name);
            push_str(&mut title, "` Team");
            r.info_messages.push(title);
            r.info_messages.push(to_owned_string("\n## Owned Files"));
            let ghost head = seq![
                "# Code Ownership Report for `"@ + team_name@ + "` Team"@,
                "\n## Owned Files"@,
            ];
            let ghost sorted_v = texts(sorted);
            assert(texts(r.info_messages) =~= head);
            assert(head + sorted_v.take(0) =~= head);
            let mut k: usize = 0;
            while k < sorted.len()
                invariant
                    k <= sorted.len(),
                    sorted_v == texts(sorted),
                    texts(r.info_messages) == head + sorted_v.take(k as int),
                    texts(r.io_errors).len() == 0,
                    texts(r.validation_errors).len() == 0,
                decreases sorted.len() - k,
            {
                let ghost before = r.info_messages@;
                r.info_messages.push(sorted[k].clone());
                assert(texts(r.info_messages) =~= before.map_values(|s: String| s@).push(sorted_v[k as int]));
                assert(sorted_v.take(k + 1) =~= sorted_v.take(k as int).push(sorted_v[k as int]));
                k = k + 1;
            }
            assert(sorted_v.take(sorted.len() as int) =~= sorted_v);
        },
        Err(e) => {
            r.io_errors.push(e);
            assert(texts(r.io_errors) =~= seq![r.io_errors@[0]@]);
        },
    }
    r
}

/// The report of `for-file`: the owner, the unowned owner when there is
/// none, or a problem when several teams own the file.
pub fn for_file_report(file_owners: &Vec<FileOwner>) -> (r: RunResult)
    ensures
        texts(r.io_errors).len() == 0,
        file_owners.len() == 0 ==> texts(r.validation_errors).len() == 0 && texts(r.info_messages)
            == seq![file_owner_text(default_file_owner_spec())],
        file_owners.len() == 1 ==> texts(r.validation_errors).len() == 0 && texts(r.info_messages)
            == seq![file_owner_text(file_owners@[0]@)],
        file_owners.len() > 1 ==> texts(r.info_messages).len() == 0 && texts(r.validation_errors)
            == seq!["Error: file is owned by multiple teams!"@] + file_owners@.map_values(
            |o: FileOwner| "\n"@ + file_owner_text(o@),
        ),
{
    let mut r = RunResult::default();
    assert(texts(r.io_errors) =~= Seq::<Seq<char>>::empty());
    assert(texts(r.info_messages) =~= Seq::<Seq<char>>::empty());
    assert(texts(r.validation_errors) =~= Seq::<Seq<char>>::empty());
    if file_owners.len() == 0 {
        r.info_messages.push(FileOwner::default().to_text());
        assert(texts(r.info_messages) =~= seq![file_owner_text(default_file_owner_spec())]);
    } else if file_owners.len() == 1 {
        r.info_messages.push(file_owners[0].to_text());
        assert(texts(r.info_messages) =~= seq![file_owner_text(file_owners@[0]@)]);
    } else {
        let ghost f = |o: FileOwner| "\n"@ + file_owner_text(o@);
        r.validation_errors.push(to_owned_string("Error: file is owned by multiple teams!"));
        let ghost head = seq!["Error: file is owned by multiple teams!"@];
        assert(texts(r.validation_errors) =~= head + file_owners@.take(0).map_values(f));
        let mut i: usize = 0;
        while i < file_owners.len()
            invariant
                i <= file_owners.len(),
                f == (|o: FileOwner| "\n"@ + file_owner_text(o@)),
                texts(r.validation_errors) == head + file_owners@.take(i as int).map_values(f),
                texts(r.io_errors).len() == 0,
                texts(r.info_messages).len() == 0,
            decreases file_owners.len() - i,
        {
            let ghost before = r.validation_errors@;
            r.validation_errors.push(concat("\n", file_owners[i].to_text().as_str()));
            assert(texts(r.validation_errors) =~= before.map_values(|s: String| s@).push(
                f(file_owners@[i as int]),
            ));
            assert(file_owners@.take(i + 1).map_values(f) =~= file_owners@.take(i as int).map_values(
                f,
            ).push(f(file_owners@[i as int])));
            i = i + 1;
        }
        assert(file_owners@.take(file_owners.len() as int) =~= file_owners@);
    }
    r
}

/// The description of a team found by the CODEOWNERS file alone.
pub open spec fn codeowners_team_text(root: Seq<char>, t: TeamView) -> Seq<char> {
    "Team: "@ + t.name + "\nGithub Team: "@ + t.github_team + "\nTeam YML: "@ + relative_to_spec(
        root,
        t.path,
    ) + "\nDescription:\n- Owner inferred from codeowners file"@
}

/// The report of `for-file --fast`: the team that the CODEOWNERS file gives
/// the file, the unowned owner when it gives none, or the error.
pub fn codeowners_only_report(project_root: &str, result: Result<Option<Team>, String>) -> (r:
    RunResult)
    ensures
        texts(r.validation_errors).len() == 0,
        match result {
            Ok(Some(t)) => texts(r.io_errors).len() == 0 && texts(r.info_messages) == seq![
                codeowners_team_text(project_root@, t@),
            ],
            Ok(None) => texts(r.io_errors).len() == 0 && texts(r.info_messages) == seq![
                file_owner_text(default_file_owner_spec()),
            ],
            Err(e) => texts(r.info_messages).len() == 0 && texts(r.io_errors) == seq![e@],
        },
{
    let mut r = RunResult::default();
    assert(texts(r.io_errors) =~= Seq::<Seq<char>>::empty());
    assert(texts(r.info_messages) =~= Seq::<Seq<char>>::empty());
    assert(texts(r.validation_errors) =~= Seq::<Seq<char>>::empty());
    match result {
        Ok(Some(team)) => {
            let mut m = concat("Team: ", team.name.as_str());
            push_str(&mut m, "\nGithub Team: ");
            push_str(&mut m, team.github_team.as_str());
            push_str(&mut m, "\nTeam YML: ");
            push_str(&mut m, relative_to(project_root, team.path.as_str()).as_str());
            push_str(&mut m, "\nDescription:\n- Owner inferred from codeowners file");
            r.info_messages.push(m);
            assert(texts(r.info_messages) =~= seq![codeowners_team_text(project_root@, team@)]);
        },
        Ok(None) => {
            r.info_messages.push(FileOwner::default().to_text());
            assert(texts(r.info_messages) =~= seq![file_owner_text(default_file_owner_spec())]);
        },
        Err(e) => {
            r.io_errors.push(e);
            assert(texts(r.io_errors) =~= seq![r.io_errors@[0]@]);
        },
    }
    r
}

/// Whether `r` shows the owner `o`.
pub open spec fn shows_owner(r: ForFileResult, o: FileOwnerView) -> bool {
    &&& r.team_name@ == o.team.name
    &&& r.github_team@ == o.team.github_team
    &&& r.team_yml@ == o.team_config_file_path
    &&& texts(r.description) == sorted_source_texts(o.sources)
}

/// The owner of a file as `for-file --json` shows it.
pub fn for_file_result(owner: &FileOwner) -> (r: ForFileResult)
    ensures
        shows_owner(r, owner@),
{
    ForFileResult {
        team_name: owner.team.name.clone(),
        github_team: owner.team.github_team.clone(),
        team_yml: owner.team_config_file_path.clone(),
        description: owner.source_texts(),
    }
}

/// What `for-file --from-codeowners --json` shows: the team that the
/// CODEOWNERS file gives the file, or the unowned owner when it gives none.
pub fn codeowners_only_result(project_root: &str, team: &Option<Team>) -> (r: ForFileResult)
    ensures
        match team {
            Some(t) => r.team_name@ == t@.name && r.github_team@ == t@.github_team && r.team_yml@
                == relative_to_spec(project_root@, t@.path) && texts(r.description) == seq![
                "Owner inferred from codeowners file"@,
            ],
            None => shows_owner(r, default_file_owner_spec()),
        },
{
    match team {
        Some(t) => {
            let mut description: Vec<String> = Vec::new();
            description.push(to_owned_string("Owner inferred from codeowners file"));
            assert(texts(description) =~= seq!["Owner inferred from codeowners file"@]);
            ForFileResult {
                team_name: t.name.clone(),
                github_team: t.github_team.clone(),
                team_yml: relative_to(project_root, t.path.as_str()),
                description,
            }
        },
        None => for_file_result(&FileOwner::default()),
    }
}

/// The paths, among the files checked, that the CODEOWNERS file gives no
/// team.
pub open spec fn unowned_paths(checked: Seq<(Seq<char>, bool)>) -> Seq<Seq<char>>
    decreases checked.len(),
{
    if checked.len() == 0 {
        Seq::empty()
    } else {
        let d = unowned_paths(checked.drop_last());
        if checked.last().1 {
            d
        } else {
            d.push(checked.last().0)
        }
    }
}

/// The report of `validate` on a list of files, given for each file checked
/// whether the CODEOWNERS file gives it a team: nothing when all are owned,
/// otherwise one problem that lists the unowned files, one per line.
pub fn files_report(checked: &Vec<(String, bool)>) -> (r: RunResult)
    ensures
        texts(r.io_errors).len() == 0,
        texts(r.info_messages).len() == 0,
        unowned_paths(checked@.map_values(|c: (String, bool)| (c.0@, c.1))).len() == 0 ==> texts(
            r.validation_errors,
        ).len() == 0,
        unowned_paths(checked@.map_values(|c: (String, bool)| (c.0@, c.1))).len() > 0 ==> texts(
            r.validation_errors,
        ) == seq![
            join_spec(
                seq!["Unowned files detected:"@] + unowned_paths(
                    checked@.map_values(|c: (String, bool)| (c.0@, c.1)),
                ).map_values(|p: Seq<char>| "- "@ + p),
                "\n"@,
            ),
        ],
{
    let ghost cv = checked@.map_values(|c: (String, bool)| (c.0@, c.1));
    let ghost item = |p: Seq<char>| "- "@ + p;
    let mut lines: Vec<String> = Vec::new();
    lines.push(to_owned_string("Unowned files detected:"));
    let ghost head = seq!["Unowned files detected:"@];
    assert(cv.take(0) =~= Seq::<(Seq<char>, bool)>::empty());
    assert(texts(lines) =~= head + unowned_paths(cv.take(0)).map_values(item));
    let mut i: usize = 0;
    while i < checked.len()
        invariant
            i <= checked.len(),
            cv == checked@.map_values(|c: (String, bool)| (c.0@, c.1)),
            item == (|p: Seq<char>| "- "@ + p),
            texts(lines) == head + unowned_paths(cv.take(i as int)).map_values(item),
        decreases checked.len() - i,
    {
        assert(cv.take(i + 1).drop_last() =~= cv.take(i as int));
        assert(cv.take(i + 1).last() == cv[i as int]);
        if !checked[i].1 {
            let ghost before = texts(lines);
            lines.push(concat("- ", checked[i].0.as_str()));
            let ghost u = unowned_paths(cv.take(i as int));
            assert(u.push(checked@[i as int].0@).map_values(item) =~= u.map_values(item).push(
                item(checked@[i as int].0@),
            ));
            assert(texts(lines) =~= before.push(item(checked@[i as int].0@)));
        }
        i = i + 1;
    }
    assert(cv.take(checked.len() as int) =~= cv);
    let mut r = RunResult::default();
    assert(texts(r.io_errors) =~= Seq::<Seq<char>>::empty());
    assert(texts(r.info_messages) =~= Seq::<Seq<char>>::empty());
    if lines.len() > 1 {
        r.validation_errors.push(join(&lines, "\n"));
        assert(texts(r.validation_errors) =~= seq![r.validation_errors@[0]@]);
    } else {
        assert(texts(r.validation_errors) =~= Seq::<Seq<char>>::empty());
    }
    r
}

/// What `for-file --json` shows of the owners found: the owner, or the
/// unowned owner when there is none; the problems when several teams own the
/// file, as `for_file_report` lists them.
pub fn for_file_outcome(file_owners: &Vec<FileOwner>) -> (r: Result<ForFileResult, Vec<String>>)
    ensures
        file_owners.len() == 0 ==> (r matches Ok(v) && shows_owner(v, default_file_owner_spec())),
        file_owners.len() == 1 ==> (r matches Ok(v) && shows_owner(v, file_owners@[0]@)),
        file_owners.len() > 1 ==> (r matches Err(m) && texts(m) == seq![
            "Error: file is owned by multiple teams!"@,
        ] + file_owners@.map_values(|o: FileOwner| "\n"@ + file_owner_text(o@))),
{
    if file_owners.len() == 0 {
        Ok(for_file_result(&FileOwner::default()))
    } else if file_owners.len() == 1 {
        Ok(for_file_result(&file_owners[0]))
    } else {
        let report = for_file_report(file_owners);
        Err(report.validation_errors)
    }
}

} // verus!
