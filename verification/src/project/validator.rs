//! The checks made on a project as it is built: every team that a file or a
//! package names must exist.
use vstd::prelude::*;

use super::{Package, PackageView, ProjectFile, ProjectFileView, Team, TeamView};
use crate::text::{concat, push_str, str_eq, to_owned_string};

verus! {

/// A file or package that names a team that does not exist: the team, then
/// the path.
#[derive(Debug, Clone)]
pub enum Error {
    InvalidTeam(String, String),
}

pub enum ErrorView {
    InvalidTeam(Seq<char>, Seq<char>),
}

impl View for Error {
    type V = ErrorView;

    open spec fn view(&self) -> ErrorView {
        match self {
            Error::InvalidTeam(t, p) => ErrorView::InvalidTeam(t@, p@),
        }
    }
}

/// How the problem is reported.
pub open spec fn error_text(e: ErrorView) -> Seq<char> {
    match e {
        ErrorView::InvalidTeam(team, path) => "- "@ + path + " is referencing an invalid team - '"@
            + team + "'"@,
    }
}

impl Error {
    /// How the problem is reported (its `Display`).
    pub fn to_text(&self) -> (r: String)
        ensures
            r@ == error_text(self@),
    {
        match self {
            Error::InvalidTeam(team, path) => {
                let mut r = concat("- ", path.as_str());
                push_str(&mut r, " is referencing an invalid team - '");
                push_str(&mut r, team.as_str());
                push_str(&mut r, "'");
                r
            },
        }
    }
}

/// The problems found, in the order of the checks.
#[derive(Debug, Clone)]
pub struct Errors(pub Vec<Error>);

impl Errors {
    /// The heading of the report (its `Display`).
    pub fn to_text(&self) -> (r: String)
        ensures
            r@ == "Error"@,
    {
        to_owned_string("Error")
    }
}

pub struct Validator<'a> {
    files: &'a Vec<ProjectFile>,
    teams: &'a Vec<Team>,
    packages: &'a Vec<Package>,
}

/// Whether a team of that name exists.
pub open spec fn has_team_named(teams: Seq<TeamView>, name: Seq<char>) -> bool {
    exists|i: int| 0 <= i < teams.len() && (#[trigger] teams[i]).name == name
}

/// The files and packages that name a team that does not exist, files
/// first.
pub open spec fn project_errors(
    files: Seq<ProjectFileView>,
    teams: Seq<TeamView>,
    packages: Seq<PackageView>,
) -> Seq<ErrorView> {
    files.filter_map(
        |f: ProjectFileView|
            match f.owner {
                Some(o) => if has_team_named(teams, o) {
                    None
                } else {
                    Some(ErrorView::InvalidTeam(o, f.path))
                },
                None => None,
            },
    ) + packages.filter_map(
        |p: PackageView|
            if has_team_named(teams, p.owner) {
                None
            } else {
                Some(ErrorView::InvalidTeam(p.owner, p.path))
            },
    )
}

fn team_exists(teams: &Vec<Team>, name: &str) -> (r: bool)
    ensures
        r == has_team_named(teams@.map_values(|t: Team| t@), name@),
{
    let ghost tv = teams@.map_values(|t: Team| t@);
    let mut i: usize = 0;
    while i < teams.len()
        invariant
            i <= teams.len(),
            tv == teams@.map_values(|t: Team| t@),
            forall|j: int| 0 <= j < i ==> tv[j].name != name@,
        decreases teams.len() - i,
    {
        if str_eq(teams[i].name.as_str(), name) {
            assert(tv[i as int].name == name@);
            return true;
        }
        i = i + 1;
    }
    false
}

impl<'a> Validator<'a> {
    pub closed spec fn files_view(&self) -> Seq<ProjectFileView> {
        self.files@.map_values(|f: ProjectFile| f@)
    }

    pub closed spec fn teams_view(&self) -> Seq<TeamView> {
        self.teams@.map_values(|t: Team| t@)
    }

    pub closed spec fn packages_view(&self) -> Seq<PackageView> {
        self.packages@.map_values(|p: Package| p@)
    }

    pub fn new(files: &'a Vec<ProjectFile>, teams: &'a Vec<Team>, packages: &'a Vec<Package>) -> (r:
        Self)
        ensures
            r.files_view() == files@.map_values(|f: ProjectFile| f@),
            r.teams_view() == teams@.map_values(|t: Team| t@),
            r.packages_view() == packages@.map_values(|p: Package| p@),
    {
        Validator { files, teams, packages }
    }

    /// `Ok` when every team that a file or a package names exists; the
    /// problems otherwise.
    pub fn validate(&self) -> (r: Result<(), Errors>)
        ensures
            match r {
                Ok(()) => project_errors(self.files_view(), self.teams_view(), self.packages_view()).len()
                    == 0,
                Err(es) => es.0@.map_values(|e: Error| e@) == project_errors(
                    self.files_view(),
                    self.teams_view(),
                    self.packages_view(),
                ) && es.0@.len() > 0,
            },
    {
        let ghost fs = self.files_view();
        let ghost ps = self.packages_view();
        let ghost tv = self.teams_view();
        let ghost ff = |f: ProjectFileView|
            match f.owner {
                Some(o) => if has_team_named(tv, o) {
                    None
                } else {
                    Some(ErrorView::InvalidTeam(o, f.path))
                },
                None => None,
            };
        let ghost pf = |p: PackageView|
            if has_team_named(tv, p.owner) {
                None
            } else {
                Some(ErrorView::InvalidTeam(p.owner, p.path))
            };
        let mut errors: Vec<Error> = Vec::new();
        let mut i: usize = 0;
        while i < self.files.len()
            invariant
                i <= self.files.len(),
                fs == self.files@.map_values(|f: ProjectFile| f@),
                tv == self.teams@.map_values(|t: Team| t@),
                ff == (|f: ProjectFileView|
                    match f.owner {
                        Some(o) => if has_team_named(tv, o) {
                            None
                        } else {
                            Some(ErrorView::InvalidTeam(o, f.path))
                        },
                        None => None,
                    }),
                errors@.map_values(|e: Error| e@) == fs.take(i as int).filter_map(ff),
            decreases self.files.len() - i,
        {
            let file = &self.files[i];
            assert(fs[i as int] == file@);
            assert(fs.take(i + 1).drop_last() =~= fs.take(i as int));
            assert(fs.take(i + 1).last() == file@);
            if let Some(owner) = &file.owner {
                if !team_exists(self.teams, owner.as_str()) {
                    let ghost before = errors@;
                    errors.push(Error::InvalidTeam(owner.clone(), file.path.clone()));
                    assert(errors@.map_values(|e: Error| e@) =~= before.map_values(|e: Error| e@).push(
                        ff(file@).unwrap(),
                    ));
                }
            }
            i = i + 1;
        }
        assert(fs.take(self.files.len() as int) =~= fs);
        let ghost base = errors@.map_values(|e: Error| e@);
        let mut k: usize = 0;
        assert(ps.take(0).filter_map(pf) =~= Seq::<ErrorView>::empty());
        assert(base + Seq::<ErrorView>::empty() =~= base);
        while k < self.packages.len()
            invariant
                k <= self.packages.len(),
                ps == self.packages@.map_values(|p: Package| p@),
                tv == self.teams@.map_values(|t: Team| t@),
                pf == (|p: PackageView|
                    if has_team_named(tv, p.owner) {
                        None
                    } else {
                        Some(ErrorView::InvalidTeam(p.owner, p.path))
                    }),
                errors@.map_values(|e: Error| e@) == base + ps.take(k as int).filter_map(pf),
            decreases self.packages.len() - k,
        {
            let package = &self.packages[k];
            assert(ps[k as int] == package@);
            assert(ps.take(k + 1).drop_last() =~= ps.take(k as int));
            assert(ps.take(k + 1).last() == package@);
            if !team_exists(self.teams, package.owner.as_str()) {
                let ghost before = errors@;
                errors.push(Error::InvalidTeam(package.owner.clone(), package.path.clone()));
                assert(errors@.map_values(|e: Error| e@) =~= before.map_values(|e: Error| e@).push(
                    pf(package@).unwrap(),
                ));
            }
            k = k + 1;
        }
        assert(ps.take(self.packages.len() as int) =~= ps);
        if errors.len() == 0 {
            Ok(())
        } else {
            Err(Errors(errors))
        }
    }
}

} // verus!
