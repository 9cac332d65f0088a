//! Comparing, file by file, the owner that the CODEOWNERS file gives with
//! the owners found without it.
use vstd::prelude::*;

use crate::ownership::{FileOwner, FileOwnerView};
use crate::project::{relative_spec, under_base, Project};
use crate::runner::{texts, RunResult};
use crate::text::{concat, join, join_spec, push_str, str_eq, to_owned_string};

verus! {

/// How the owners found without the CODEOWNERS file are shown: `Unowned`,
/// the team, or every team.
pub open spec fn fast_display_spec(owners: Seq<FileOwnerView>) -> Seq<char> {
    if owners.len() == 0 {
        "Unowned"@
    } else if owners.len() == 1 {
        owners[0].team.name
    } else {
        "Multiple: "@ + join_spec(owners.map_values(|o: FileOwnerView| o.team.name), ", "@)
    }
}

/// How the owners found without the CODEOWNERS file are shown.
pub fn fast_display(owners: &Vec<FileOwner>) -> (r: String)
    ensures
        r@ == fast_display_spec(owners@.map_values(|o: FileOwner| o@)),
{
    let ghost ov = owners@.map_values(|o: FileOwner| o@);
    if owners.len() == 0 {
        to_owned_string("Unowned")
    } else if owners.len() == 1 {
        assert(ov[0] == owners@[0]@);
        owners[0].team.name.clone()
    } else {
        let mut names: Vec<String> = Vec::new();
        let mut i: usize = 0;
        while i < owners.len()
            invariant
                i <= owners.len(),
                ov == owners@.map_values(|o: FileOwner| o@),
                names@.map_values(|s: String| s@) == ov.take(i as int).map_values(
                    |o: FileOwnerView| o.team.name,
                ),
            decreases owners.len() - i,
        {
            let ghost before = names@;
            names.push(owners[i].team.name.clone());
            assert(ov[i as int] == owners@[i as int]@);
            assert(names@.map_values(|s: String| s@) =~= before.map_values(|s: String| s@).push(
                ov[i as int].team.name,
            ));
            assert(ov.take(i + 1).map_values(|o: FileOwnerView| o.team.name) =~= ov.take(
                i as int,
            ).map_values(|o: FileOwnerView| o.team.name).push(ov[i as int].team.name));
            i = i + 1;
        }
        assert(ov.take(owners.len() as int) =~= ov);
        concat("Multiple: ", join(&names, ", ").as_str())
    }
}

/// Whether the two agree: both unowned, or the same team.
pub open spec fn is_match_spec(codeowners_team: Option<Seq<char>>, fast_display: Seq<char>) -> bool {
    match codeowners_team {
        None => fast_display == "Unowned"@,
        Some(t) => fast_display == t,
    }
}

/// Whether the two agree.
pub fn is_match(codeowners_team: Option<&str>, fast_display: &str) -> (r: bool)
    ensures
        r == is_match_spec(
            match codeowners_team {
                Some(t) => Some(t@),
                None => None,
            },
            fast_display@,
        ),
{
    match codeowners_team {
        None => str_eq(fast_display, "Unowned"),
        Some(t) => str_eq(fast_display, t),
    }
}

/// The line that reports a file on which the two disagree.
pub open spec fn mismatch_line(
    rel: Seq<char>,
    codeowners_display: Seq<char>,
    fast_display: Seq<char>,
) -> Seq<char> {
    "- "@ + rel + ": CODEOWNERS="@ + codeowners_display + " fast="@ + fast_display
}

/// The line that reports a file on which the two disagree; the file lies
/// under the project's root.
pub fn format_mismatch(
    project: &Project,
    file_path: &str,
    codeowners_display: &str,
    fast_display: &str,
) -> (r: String)
    requires
        under_base(project@, file_path@),
    ensures
        r@ == mismatch_line(relative_spec(project@, file_path@), codeowners_display@, fast_display@),
{
    let rel = project.relative_path(file_path);
    let mut r = concat("- ", rel.as_str());
    push_str(&mut r, ": CODEOWNERS=");
    push_str(&mut r, codeowners_display);
    push_str(&mut r, " fast=");
    push_str(&mut r, fast_display);
    r
}

/// The report of the comparison: success, the files on which the two
/// disagree, or the error met.
pub fn crosscheck_report(result: Result<Vec<String>, String>) -> (r: RunResult)
    ensures
        match result {
            Ok(m) => texts(r.io_errors).len() == 0 && if m@.len() == 0 {
                texts(r.validation_errors).len() == 0 && texts(r.info_messages) == seq![
                    "Success! All files match between CODEOWNERS and for-file command."@,
                ]
            } else {
                texts(r.info_messages).len() == 0 && texts(r.validation_errors) == texts(m)
            },
            Err(e) => texts(r.info_messages).len() == 0 && texts(r.validation_errors).len() == 0
                && texts(r.io_errors) == seq![e@],
        },
{
    let mut r = RunResult::default();
    assert(texts(r.io_errors) =~= Seq::<Seq<char>>::empty());
    assert(texts(r.info_messages) =~= Seq::<Seq<char>>::empty());
    assert(texts(r.validation_errors) =~= Seq::<Seq<char>>::empty());
    match result {
        Ok(mismatches) => {
            if mismatches.len() == 0 {
                r.info_messages.push(
                    to_owned_string("Success! All files match between CODEOWNERS and for-file command."),
                );
                assert(texts(r.info_messages) =~= seq![
                    "Success! All files match between CODEOWNERS and for-file command."@,
                ]);
            } else {
                r.validation_errors = mismatches;
            }
        },
        Err(e) => {
            r.io_errors.push(e);
            assert(texts(r.io_errors) =~= seq![r.io_errors@[0]@]);
        },
    }
    r
}

/// The lines that report the files on which the two disagree, given for
/// each file of the project, in order, the team that the CODEOWNERS file
/// gives it and how the owners found without it are shown.
pub open spec fn mismatches_spec(
    rels: Seq<Seq<char>>,
    checks: Seq<(Option<Seq<char>>, Seq<char>)>,
) -> Seq<Seq<char>>
    decreases rels.len(),
{
    if rels.len() == 0 || checks.len() == 0 {
        Seq::empty()
    } else {
        let rest = mismatches_spec(rels.drop_last(), checks.drop_last());
        let (team, fast) = checks.last();
        if is_match_spec(team, fast) {
            rest
        } else {
            rest.push(
                mismatch_line(
                    rels.last(),
                    match team {
                        Some(t) => t,
                        None => "Unowned"@,
                    },
                    fast,
                ),
            )
        }
    }
}

/// The lines that report the files on which the two disagree.
pub fn collect_mismatches(project: &Project, checks: &Vec<(Option<String>, String)>) -> (r: Vec<String>)
    requires
        project.wf(),
        checks.len() == project.files.len(),
    ensures
        texts(r) == mismatches_spec(
            project@.files.map_values(|f: crate::project::ProjectFileView| relative_spec(project@, f.path)),
            checks@.map_values(|c: (Option<String>, String)| (crate::project::opt_view(c.0), c.1@)),
        ),
{
    let ghost p = project@;
    let ghost rels = p.files.map_values(|f: crate::project::ProjectFileView| relative_spec(p, f.path));
    let ghost cv = checks@.map_values(|c: (Option<String>, String)| (crate::project::opt_view(c.0), c.1@));
    let mut out: Vec<String> = Vec::new();
    let mut i: usize = 0;
    assert(out@.map_values(|s: String| s@) =~= mismatches_spec(rels.take(0), cv.take(0)));
    while i < checks.len()
        invariant
            i <= checks.len(),
            checks.len() == project.files.len(),
            p == project@,
            crate::project::project_wf(p),
            rels == p.files.map_values(|f: crate::project::ProjectFileView| relative_spec(p, f.path)),
            cv == checks@.map_values(|c: (Option<String>, String)| (crate::project::opt_view(c.0), c.1@)),
            texts(out) == mismatches_spec(rels.take(i as int), cv.take(i as int)),
        decreases checks.len() - i,
    {
        let file = &project.files[i];
        assert(p.files[i as int] == file@);
        assert(rels.take(i + 1).drop_last() =~= rels.take(i as int));
        assert(cv.take(i + 1).drop_last() =~= cv.take(i as int));
        assert(rels.take(i + 1).last() == relative_spec(p, file@.path));
        assert(cv.take(i + 1).last() == cv[i as int]);
        let (team, fast) = &checks[i];
        let team_ref: Option<&str> = match team {
            Some(t) => Some(t.as_str()),
            None => None,
        };
        if !is_match(team_ref, fast.as_str()) {
            let shown = match team {
                Some(t) => t.clone(),
                None => to_owned_string("Unowned"),
            };
            let ghost before = out@;
            out.push(format_mismatch(project, file.path.as_str(), shown.as_str(), fast.as_str()));
            assert(texts(out) =~= before.map_values(|s: String| s@).push(out@.last()@));
        }
        i = i + 1;
    }
    assert(rels.take(checks.len() as int) =~= rels);
    assert(cv.take(checks.len() as int) =~= cv);
    out
}

} // verus!
