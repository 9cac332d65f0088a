//! The project as the ownership rules see it: its files, packages, vendored
//! gems, teams and directory owner markers.
use vstd::prelude::*;

use crate::path::{parent, parent_spec, strip_prefix, strip_prefix_spec, view_strings};
use crate::strmap::{map_of, StrMap};
use crate::text::to_owned_string;

pub mod deserializers;
pub mod validator;

verus! {

pub open spec fn opt_view(o: Option<String>) -> Option<Seq<char>> {
    match o {
        Some(s) => Some(s@),
        None => None,
    }
}

/// A fresh copy of a list of strings.
pub fn copy_strings(v: &Vec<String>) -> (r: Vec<String>)
    ensures
        r@ == v@,
{
    let mut r: Vec<String> = Vec::new();
    let mut i: usize = 0;
    while i < v.len()
        invariant
            i <= v.len(),
            r@ == v@.take(i as int),
        decreases v.len() - i,
    {
        r.push(v[i].clone());
        assert(v@.take(i + 1) =~= v@.take(i as int).push(v@[i as int]));
        i = i + 1;
    }
    assert(v@.take(v.len() as int) =~= v@);
    r
}

pub fn copy_opt_string(o: &Option<String>) -> (r: Option<String>)
    ensures
        r == *o,
{
    match o {
        Some(s) => Some(s.clone()),
        None => None,
    }
}

#[derive(Clone, Debug)]
pub struct VendoredGem {
    pub path: String,
    pub name: String,
}

pub struct VendoredGemView {
    pub path: Seq<char>,
    pub name: Seq<char>,
}

impl View for VendoredGem {
    type V = VendoredGemView;

    open spec fn view(&self) -> VendoredGemView {
        VendoredGemView { path: self.path@, name: self.name@ }
    }
}

impl VendoredGem {
    pub fn duplicate(&self) -> (r: Self)
        ensures
            r@ == self@,
    {
        VendoredGem { path: self.path.clone(), name: self.name.clone() }
    }
}

#[derive(Clone, Debug)]
pub struct ProjectFile {
    pub owner: Option<String>,
    pub path: String,
}

pub struct ProjectFileView {
    pub owner: Option<Seq<char>>,
    pub path: Seq<char>,
}

impl View for ProjectFile {
    type V = ProjectFileView;

    open spec fn view(&self) -> ProjectFileView {
        ProjectFileView { owner: opt_view(self.owner), path: self.path@ }
    }
}

#[derive(Clone, Debug)]
pub struct Team {
    pub path: String,
    pub name: String,
    pub github_team: String,
    pub owned_globs: Vec<String>,
    pub subtracted_globs: Vec<String>,
    pub owned_gems: Vec<String>,
    pub avoid_ownership: bool,
}

pub struct TeamView {
    pub path: Seq<char>,
    pub name: Seq<char>,
    pub github_team: Seq<char>,
    pub owned_globs: Seq<Seq<char>>,
    pub subtracted_globs: Seq<Seq<char>>,
    pub owned_gems: Seq<Seq<char>>,
    pub avoid_ownership: bool,
}

impl View for Team {
    type V = TeamView;

    open spec fn view(&self) -> TeamView {
        TeamView {
            path: self.path@,
            name: self.name@,
            github_team: self.github_team@,
            owned_globs: view_strings(self.owned_globs@),
            subtracted_globs: view_strings(self.subtracted_globs@),
            owned_gems: view_strings(self.owned_gems@),
            avoid_ownership: self.avoid_ownership,
        }
    }
}

impl Team {
    /// A fresh team equal to this one.
    pub fn duplicate(&self) -> (r: Self)
        ensures
            r@ == self@,
    {
        Team {
            path: self.path.clone(),
            name: self.name.clone(),
            github_team: self.github_team.clone(),
            owned_globs: copy_strings(&self.owned_globs),
            subtracted_globs: copy_strings(&self.subtracted_globs),
            owned_gems: copy_strings(&self.owned_gems),
            avoid_ownership: self.avoid_ownership,
        }
    }

    /// The team that a team file describes, read from what the file holds:
    /// `unowned_globs` subtract from `owned_globs`, and a team without a
    /// `ruby` section owns no gems.
    pub fn from_team_file(path: String, file: deserializers::Team) -> (r: Self)
        ensures
            r.path@ == path@,
            r.name@ == file.name@,
            r.github_team@ == file.github.team@,
            r.owned_globs@ == file.owned_globs@,
            r.subtracted_globs@ == file.unowned_globs@,
            r.owned_gems@ == match file.ruby {
                Some(ruby) => ruby.owned_gems@,
                None => Seq::empty(),
            },
            r.avoid_ownership == file.github.do_not_add_to_codeowners_file,
    {
        let owned_gems = match file.ruby {
            Some(ruby) => ruby.owned_gems,
            None => Vec::new(),
        };
        Team {
            path,
            name: file.name,
            github_team: file.github.team,
            owned_globs: file.owned_globs,
            subtracted_globs: file.unowned_globs,
            owned_gems,
            avoid_ownership: file.github.do_not_add_to_codeowners_file,
        }
    }
}

#[derive(PartialEq, Eq, Debug, Clone, Copy, Structural)]
pub enum PackageType {
    Ruby,
    Javascript,
}

impl PackageType {
    /// The name of the package type (its `Display`).
    pub fn to_text(&self) -> (r: String)
        ensures
            r@ == match self {
                PackageType::Ruby => "Ruby"@,
                PackageType::Javascript => "Javascript"@,
            },
    {
        match self {
            PackageType::Ruby => to_owned_string("Ruby"),
            PackageType::Javascript => to_owned_string("Javascript"),
        }
    }
}

#[derive(Clone, Debug)]
pub struct Package {
    pub path: String,
    pub package_type: PackageType,
    pub owner: String,
}

pub struct PackageView {
    pub path: Seq<char>,
    pub package_type: PackageType,
    pub owner: Seq<char>,
}

impl View for Package {
    type V = PackageView;

    open spec fn view(&self) -> PackageView {
        PackageView { path: self.path@, package_type: self.package_type, owner: self.owner@ }
    }
}

impl Package {
    /// A fresh package equal to this one.
    pub fn duplicate(&self) -> (r: Self)
        ensures
            r == *self,
    {
        Package {
            path: self.path.clone(),
            package_type: self.package_type,
            owner: self.owner.clone(),
        }
    }

    /// The directory that holds the package file.
    pub fn package_root(&self) -> (r: Option<String>)
        ensures
            opt_view(r) == parent_spec(self.path@),
    {
        parent(self.path.as_str())
    }
}

#[derive(Clone, Debug)]
pub struct DirectoryCodeownersFile {
    pub path: String,
    pub owner: String,
}

pub struct DirectoryCodeownersFileView {
    pub path: Seq<char>,
    pub owner: Seq<char>,
}

impl View for DirectoryCodeownersFile {
    type V = DirectoryCodeownersFileView;

    open spec fn view(&self) -> DirectoryCodeownersFileView {
        DirectoryCodeownersFileView { path: self.path@, owner: self.owner@ }
    }
}

impl DirectoryCodeownersFile {
    /// The directory that holds the `.codeowner` file.
    pub fn directory_root(&self) -> (r: Option<String>)
        ensures
            opt_view(r) == parent_spec(self.path@),
    {
        parent(self.path.as_str())
    }
}

pub struct Project {
    pub base_path: String,
    pub files: Vec<ProjectFile>,
    pub packages: Vec<Package>,
    pub vendored_gems: Vec<VendoredGem>,
    pub teams: Vec<Team>,
    pub codeowners_file_path: String,
    pub directory_codeowner_files: Vec<DirectoryCodeownersFile>,
    /// The text of the CODEOWNERS file as it stands: empty when there is no
    /// such file, `None` when it could not be read.
    pub codeowners_file: Option<String>,
    /// The command that the error messages tell the user to run.
    pub executable_name: String,
}

pub struct ProjectView {
    pub base_path: Seq<char>,
    pub files: Seq<ProjectFileView>,
    pub packages: Seq<PackageView>,
    pub vendored_gems: Seq<VendoredGemView>,
    pub teams: Seq<TeamView>,
    pub codeowners_file_path: Seq<char>,
    pub directory_codeowner_files: Seq<DirectoryCodeownersFileView>,
    pub codeowners_file: Option<Seq<char>>,
    pub executable_name: Seq<char>,
}

impl View for Project {
    type V = ProjectView;

    open spec fn view(&self) -> ProjectView {
        ProjectView {
            base_path: self.base_path@,
            files: self.files@.map_values(|f: ProjectFile| f@),
            packages: self.packages@.map_values(|p: Package| p@),
            vendored_gems: self.vendored_gems@.map_values(|g: VendoredGem| g@),
            teams: self.teams@.map_values(|t: Team| t@),
            codeowners_file_path: self.codeowners_file_path@,
            directory_codeowner_files: self.directory_codeowner_files@.map_values(
                |d: DirectoryCodeownersFile| d@,
            ),
            codeowners_file: opt_view(self.codeowners_file),
            executable_name: self.executable_name@,
        }
    }
}

/// The teams under their names, a later team hiding an earlier one of the
/// same name.
pub open spec fn teams_by_name_spec(teams: Seq<TeamView>) -> Map<Seq<char>, TeamView> {
    map_of(teams.map_values(|t: TeamView| (t.name, t)))
}

/// Each team under its name and under its GitHub team, in the teams' order.
pub open spec fn team_keys(teams: Seq<TeamView>) -> Seq<(Seq<char>, TeamView)> {
    teams.map_values(|t: TeamView| seq![(t.name, t), (t.github_team, t)]).flatten_alt()
}

/// The teams under their names and their GitHub teams.
pub open spec fn teams_by_any_name_spec(teams: Seq<TeamView>) -> Map<Seq<char>, TeamView> {
    map_of(team_keys(teams))
}

/// The vendored gems under their names, a later gem hiding an earlier one.
pub open spec fn gems_by_name_spec(gems: Seq<VendoredGemView>) -> Map<Seq<char>, VendoredGemView> {
    map_of(gems.map_values(|g: VendoredGemView| (g.name, g)))
}

/// The path relative to the project's root.
pub open spec fn relative_spec(p: ProjectView, path: Seq<char>) -> Seq<char> {
    strip_prefix_spec(p.base_path, path).unwrap()
}

pub open spec fn under_base(p: ProjectView, path: Seq<char>) -> bool {
    strip_prefix_spec(p.base_path, path) is Some
}

/// Every file, package, team file and vendored gem of the project lies under
/// its root, so that each has a path relative to it, and every `.codeowner`
/// file lies in a directory.
pub open spec fn project_wf(p: ProjectView) -> bool {
    &&& forall|i: int| 0 <= i < p.files.len() ==> under_base(p, #[trigger] p.files[i].path)
    &&& forall|i: int| 0 <= i < p.packages.len() ==> under_base(p, #[trigger] p.packages[i].path)
    &&& forall|i: int| 0 <= i < p.teams.len() ==> under_base(p, #[trigger] p.teams[i].path)
    &&& forall|i: int|
        0 <= i < p.vendored_gems.len() ==> under_base(p, #[trigger] p.vendored_gems[i].path)
    &&& forall|i: int|
        0 <= i < p.directory_codeowner_files.len() ==> parent_spec(
            #[trigger] p.directory_codeowner_files[i].path,
        ) is Some
}

impl Project {
    pub open spec fn wf(&self) -> bool {
        project_wf(self@)
    }

    /// `absolute_path` relative to the project's root.
    pub fn relative_path(&self, absolute_path: &str) -> (r: String)
        requires
            under_base(self@, absolute_path@),
        ensures
            r@ == relative_spec(self@, absolute_path@),
    {
        strip_prefix(self.base_path.as_str(), absolute_path).unwrap()
    }

    /// The teams under their names.
    pub fn team_by_name(&self) -> (r: StrMap<Team>)
        ensures
            r@ == teams_by_name_spec(self@.teams),
    {
        let ghost tv = self@.teams;
        let mut r: StrMap<Team> = StrMap::new();
        let mut i: usize = 0;
        while i < self.teams.len()
            invariant
                i <= self.teams.len(),
                tv == self@.teams,
                r@ == teams_by_name_spec(tv.take(i as int)),
            decreases self.teams.len() - i,
        {
            let t = self.teams[i].duplicate();
            let k = self.teams[i].name.clone();
            r.insert(k, t);
            proof {
                let f = |t: TeamView| (t.name, t);
                assert(tv.take(i + 1).map_values(f) =~= tv.take(i as int).map_values(f).push(
                    f(tv[i as int]),
                ));
                assert(tv.take(i + 1).map_values(f).drop_last() =~= tv.take(i as int).map_values(
                    f,
                ));
            }
            i = i + 1;
        }
        assert(tv.take(self.teams.len() as int) =~= tv);
        r
    }

    /// The teams under their names and under their GitHub teams.
    pub fn teams_by_any_name(&self) -> (r: StrMap<Team>)
        ensures
            r@ == teams_by_any_name_spec(self@.teams),
    {
        let ghost tv = self@.teams;
        let mut r: StrMap<Team> = StrMap::new();
        let mut i: usize = 0;
        while i < self.teams.len()
            invariant
                i <= self.teams.len(),
                tv == self@.teams,
                r.pairs() == team_keys(tv.take(i as int)),
            decreases self.teams.len() - i,
        {
            let t = &self.teams[i];
            let ghost tt = t@;
            r.insert(t.name.clone(), t.duplicate());
            r.insert(t.github_team.clone(), t.duplicate());
            proof {
                let f = |t: TeamView| seq![(t.name, t), (t.github_team, t)];
                assert(tv.take(i + 1).map_values(f) =~= tv.take(i as int).map_values(f).push(
                    f(tt),
                ));
                assert(tv.take(i + 1).map_values(f).drop_last() =~= tv.take(i as int).map_values(
                    f,
                ));
                assert(team_keys(tv.take(i + 1)) =~= team_keys(tv.take(i as int)) + f(tt));
            }
            i = i + 1;
        }
        assert(tv.take(self.teams.len() as int) =~= tv);
        r
    }

    /// The team of the given name.
    pub fn get_team(&self, name: &str) -> (r: Option<Team>)
        ensures
            match r {
                Some(t) => teams_by_name_spec(self@.teams).contains_key(name@) && t@
                    == teams_by_name_spec(self@.teams)[name@],
                None => !teams_by_name_spec(self@.teams).contains_key(name@),
            },
    {
        let m = self.team_by_name();
        match m.get(name) {
            Some(t) => Some(t.duplicate()),
            None => None,
        }
    }

    /// The vendored gems under their names.
    pub fn vendored_gem_by_name(&self) -> (r: StrMap<VendoredGem>)
        ensures
            r@ == gems_by_name_spec(self@.vendored_gems),
    {
        let ghost gv = self@.vendored_gems;
        let mut r: StrMap<VendoredGem> = StrMap::new();
        let mut i: usize = 0;
        while i < self.vendored_gems.len()
            invariant
                i <= self.vendored_gems.len(),
                gv == self@.vendored_gems,
                r@ == gems_by_name_spec(gv.take(i as int)),
            decreases self.vendored_gems.len() - i,
        {
            let g = self.vendored_gems[i].duplicate();
            let k = self.vendored_gems[i].name.clone();
            r.insert(k, g);
            proof {
                let f = |g: VendoredGemView| (g.name, g);
                assert(gv.take(i + 1).map_values(f) =~= gv.take(i as int).map_values(f).push(
                    f(gv[i as int]),
                ));
                assert(gv.take(i + 1).map_values(f).drop_last() =~= gv.take(i as int).map_values(
                    f,
                ));
            }
            i = i + 1;
        }
        assert(gv.take(self.vendored_gems.len() as int) =~= gv);
        r
    }
}

#[derive(Debug, Clone, Copy, PartialEq, Eq, Structural)]
pub enum Error {
    Io,
    SerdeYaml,
    SerdeJson,
}

impl Error {
    /// The error's text (its `Display`).
    pub fn to_text(&self) -> (r: String)
        ensures
            r@ == match self {
                Error::Io => "Error::Io"@,
                Error::SerdeYaml => "Error::SerdeYaml"@,
                Error::SerdeJson => "Error::SerdeJson"@,
            },
    {
        match self {
            Error::Io => to_owned_string("Error::Io"),
            Error::SerdeYaml => to_owned_string("Error::SerdeYaml"),
            Error::SerdeJson => to_owned_string("Error::SerdeJson"),
        }
    }
}

} // verus!
