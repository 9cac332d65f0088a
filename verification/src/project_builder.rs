//! Building the project from the entries of a walk of its directory: which
//! entries are skipped, what each entry is, and how the entries make up the
//! project.
use vstd::prelude::*;

use crate::config::{Config, ConfigView};
use crate::globs::{any_glob_matches, glob_list_matches};
use crate::path::{components, file_name, file_name_spec, parent, parent_spec, path_components, path_eq, path_eq_spec, strip_prefix, strip_prefix_spec};
use crate::path::view_strings;
use crate::project::deserializers;
use crate::project::{
    opt_view, DirectoryCodeownersFile, DirectoryCodeownersFileView, Error, Package, PackageType,
    PackageView, Project, ProjectFile, ProjectFileView, ProjectView, Team, TeamView, VendoredGem,
    VendoredGemView,
};
use crate::text::{spec_to_lowercase, str_eq, to_lowercase, trim, trim_spec};

verus! {

/// What an entry of the walk is.
#[derive(Debug)]
pub enum EntryType {
    Directory(String, String),
    RubyPackage(String, String),
    JavascriptPackage(String, String),
    CodeownerFile(String, String),
    TeamFile(String, String),
    OwnedFile(String, String),
    NullEntry(),
}

pub enum EntryTypeView {
    Directory(Seq<char>, Seq<char>),
    RubyPackage(Seq<char>, Seq<char>),
    JavascriptPackage(Seq<char>, Seq<char>),
    CodeownerFile(Seq<char>, Seq<char>),
    TeamFile(Seq<char>, Seq<char>),
    OwnedFile(Seq<char>, Seq<char>),
    NullEntry,
}

impl View for EntryType {
    type V = EntryTypeView;

    open spec fn view(&self) -> EntryTypeView {
        match self {
            EntryType::Directory(a, r) => EntryTypeView::Directory(a@, r@),
            EntryType::RubyPackage(a, r) => EntryTypeView::RubyPackage(a@, r@),
            EntryType::JavascriptPackage(a, r) => EntryTypeView::JavascriptPackage(a@, r@),
            EntryType::CodeownerFile(a, r) => EntryTypeView::CodeownerFile(a@, r@),
            EntryType::TeamFile(a, r) => EntryTypeView::TeamFile(a@, r@),
            EntryType::OwnedFile(a, r) => EntryTypeView::OwnedFile(a@, r@),
            EntryType::NullEntry() => EntryTypeView::NullEntry,
        }
    }
}

/// An entry of the walk with what was read of it: the package or team file
/// as parsed, the text of a `.codeowner` file, the project file built from
/// an owned file.
pub enum EntryContent {
    Directory(String, String),
    RubyPackage(String, deserializers::RubyPackage),
    JavascriptPackage(String, deserializers::JavascriptPackage),
    CodeownerFile(String, String),
    TeamFile(String, deserializers::Team),
    OwnedFile(ProjectFile),
    NullEntry(),
}

/// Whether the walk goes into an entry: a file that git does not track is
/// skipped, and so is a top-level directory named in `ignore_dirs`.
/// `untracked` tells that there is a list of tracked files and the entry is
/// not on it.
pub open spec fn keep_entry_spec(
    base_path: Seq<char>,
    path: Seq<char>,
    file_name: Seq<char>,
    is_file: bool,
    is_dir: bool,
    untracked: bool,
    ignore_dirs: Seq<Seq<char>>,
) -> bool {
    !(is_file && untracked) && !(is_dir && strip_prefix_spec(base_path, path) is Some
        && components(strip_prefix_spec(base_path, path).unwrap()).len() == 1 && ignore_dirs.contains(
        file_name,
    ))
}

fn contains_text(v: &Vec<String>, x: &str) -> (r: bool)
    ensures
        r == v@.map_values(|s: String| s@).contains(x@),
{
    let ghost vv = v@.map_values(|s: String| s@);
    let mut i: usize = 0;
    while i < v.len()
        invariant
            i <= v.len(),
            vv == v@.map_values(|s: String| s@),
            forall|j: int| 0 <= j < i ==> vv[j] != x@,
        decreases v.len() - i,
    {
        if str_eq(v[i].as_str(), x) {
            assert(vv[i as int] == x@);
            return true;
        }
        i = i + 1;
    }
    false
}

/// Whether the walk goes into an entry.
pub fn keep_entry(
    base_path: &str,
    path: &str,
    file_name: &str,
    is_file: bool,
    is_dir: bool,
    untracked: bool,
    ignore_dirs: &Vec<String>,
) -> (r: bool)
    ensures
        r == keep_entry_spec(
            base_path@,
            path@,
            file_name@,
            is_file,
            is_dir,
            untracked,
            ignore_dirs@.map_values(|s: String| s@),
        ),
{
    if is_file && untracked {
        return false;
    }
    if is_dir {
        if let Some(rel) = strip_prefix(base_path, path) {
            let cs = path_components(rel.as_str());
            if cs.len() == 1 && contains_text(ignore_dirs, file_name) {
                return false;
            }
        }
    }
    true
}

/// What an entry of the walk is, from its path relative to the project's
/// root.
pub open spec fn entry_kind_spec(config: ConfigView, abs: Seq<char>, rel: Seq<char>, is_dir: bool) -> EntryTypeView {
    if is_dir {
        EntryTypeView::Directory(abs, rel)
    } else {
        match file_name_spec(rel) {
            None => EntryTypeView::NullEntry,
            Some(n) => {
                let name = spec_to_lowercase(n);
                if name == "package.yml"@ && parent_spec(rel) is Some && any_glob_matches(
                    config.ruby_package_paths,
                    parent_spec(rel).unwrap(),
                ) {
                    EntryTypeView::RubyPackage(abs, rel)
                } else if name == "package.json"@ && parent_spec(rel) is Some && any_glob_matches(
                    config.javascript_package_paths,
                    parent_spec(rel).unwrap(),
                ) {
                    EntryTypeView::JavascriptPackage(abs, rel)
                } else if name == ".codeowner"@ {
                    EntryTypeView::CodeownerFile(abs, rel)
                } else if any_glob_matches(config.team_file_glob, rel) {
                    EntryTypeView::TeamFile(abs, rel)
                } else if any_glob_matches(config.owned_globs, rel) && !any_glob_matches(
                    config.unowned_globs,
                    rel,
                ) {
                    EntryTypeView::OwnedFile(abs, rel)
                } else {
                    EntryTypeView::NullEntry
                }
            },
        }
    }
}

/// The owner of a ruby package: its top-level `owner` or `metadata.owner`;
/// an error when both are there and differ.
pub open spec fn ruby_package_owner_spec(p: deserializers::RubyPackage) -> Result<
    Option<Seq<char>>,
    Error,
> {
    let top = opt_view(p.owner);
    let meta = match p.metadata {
        Some(m) => opt_view(m.owner),
        None => None,
    };
    match (top, meta) {
        (Some(t), Some(m)) => if t != m {
            Err(Error::Io)
        } else {
            Ok(Some(t))
        },
        (Some(t), None) => Ok(Some(t)),
        (None, m) => Ok(m),
    }
}

/// The owner of a ruby package.
pub fn ruby_package_owner(p: &deserializers::RubyPackage) -> (r: Result<Option<String>, Error>)
    ensures
        match r {
            Ok(o) => ruby_package_owner_spec(*p) == Ok::<Option<Seq<char>>, Error>(opt_view(o)),
            Err(e) => ruby_package_owner_spec(*p) == Err::<Option<Seq<char>>, Error>(e),
        },
{
    let metadata_owner = match &p.metadata {
        Some(m) => m.owner.clone(),
        None => None,
    };
    match (&p.owner, metadata_owner) {
        (Some(top), Some(meta)) => if !str_eq(top.as_str(), meta.as_str()) {
            Err(Error::Io)
        } else {
            Ok(Some(top.clone()))
        },
        (Some(top), None) => Ok(Some(top.clone())),
        (None, meta) => Ok(meta),
    }
}

/// The owner of a javascript package: its `metadata.owner`.
pub open spec fn javascript_package_owner_spec(p: deserializers::JavascriptPackage) -> Option<Seq<char>> {
    match p.metadata {
        Some(m) => opt_view(m.owner),
        None => None,
    }
}

/// The owner of a javascript package.
pub fn javascript_package_owner(p: &deserializers::JavascriptPackage) -> (r: Option<String>)
    ensures
        opt_view(r) == javascript_package_owner_spec(*p),
{
    match &p.metadata {
        Some(m) => m.owner.clone(),
        None => None,
    }
}

/// The team that a team file describes.
pub open spec fn team_from_file_spec(path: Seq<char>, t: deserializers::Team) -> TeamView {
    TeamView {
        path,
        name: t.name@,
        github_team: t.github.team@,
        owned_globs: view_strings(t.owned_globs@),
        subtracted_globs: view_strings(t.unowned_globs@),
        owned_gems: match t.ruby {
            Some(r) => view_strings(r.owned_gems@),
            None => Seq::empty(),
        },
        avoid_ownership: t.github.do_not_add_to_codeowners_file,
    }
}

/// What the entries make up so far.
pub struct BuildState {
    pub files: Seq<ProjectFileView>,
    pub packages: Seq<PackageView>,
    pub vendored_gems: Seq<VendoredGemView>,
    pub codeowners: Seq<DirectoryCodeownersFileView>,
    pub teams: Seq<TeamView>,
}

/// One entry added to the project: an owned file, a vendored gem (a
/// directory right under the vendored gems path), a package with an owner,
/// a `.codeowner` file, or a team.
pub open spec fn build_step(config: ConfigView, st: BuildState, e: EntryContent) -> Result<
    BuildState,
    Error,
> {
    match e {
        EntryContent::OwnedFile(pf) => Ok(BuildState { files: st.files.push(pf@), ..st }),
        EntryContent::Directory(abs, rel) => {
            if parent_spec(rel@) is Some && path_eq_spec(
                parent_spec(rel@).unwrap(),
                config.vendored_gems_path,
            ) {
                match file_name_spec(rel@) {
                    Some(n) => Ok(
                        BuildState {
                            vendored_gems: st.vendored_gems.push(VendoredGemView { path: abs@, name: n }),
                            ..st
                        },
                    ),
                    None => Err(Error::Io),
                }
            } else {
                Ok(st)
            }
        },
        EntryContent::RubyPackage(rel, p) => match ruby_package_owner_spec(p) {
            Ok(Some(owner)) => Ok(
                BuildState {
                    packages: st.packages.push(
                        PackageView { path: rel@, owner, package_type: PackageType::Ruby },
                    ),
                    ..st
                },
            ),
            Ok(None) => Ok(st),
            Err(e) => Err(e),
        },
        EntryContent::JavascriptPackage(rel, p) => match javascript_package_owner_spec(p) {
            Some(owner) => Ok(
                BuildState {
                    packages: st.packages.push(
                        PackageView { path: rel@, owner, package_type: PackageType::Javascript },
                    ),
                    ..st
                },
            ),
            None => Ok(st),
        },
        EntryContent::CodeownerFile(rel, text) => Ok(
            BuildState {
                codeowners: st.codeowners.push(
                    DirectoryCodeownersFileView { path: rel@, owner: trim_spec(text@) },
                ),
                ..st
            },
        ),
        EntryContent::TeamFile(abs, t) => Ok(
            BuildState { teams: st.teams.push(team_from_file_spec(abs@, t)), ..st },
        ),
        EntryContent::NullEntry() => Ok(st),
    }
}

pub open spec fn build_upto(config: ConfigView, es: Seq<EntryContent>) -> Result<BuildState, Error>
    decreases es.len(),
{
    if es.len() == 0 {
        Ok(
            BuildState {
                files: Seq::empty(),
                packages: Seq::empty(),
                vendored_gems: Seq::empty(),
                codeowners: Seq::empty(),
                teams: Seq::empty(),
            },
        )
    } else {
        match build_upto(config, es.drop_last()) {
            Ok(st) => build_step(config, st, es.last()),
            Err(e) => Err(e),
        }
    }
}

/// Builds the project's model from the parts of a walk of its directory.
pub struct ProjectBuilder {
    config: Config,
    base_path: String,
    codeowners_file_path: String,
}

proof fn lemma_build_fails_on(config: ConfigView, es: Seq<EntryContent>, k: int)
    requires
        0 <= k <= es.len(),
        build_upto(config, es.take(k)) is Err,
    ensures
        build_upto(config, es) == build_upto(config, es.take(k)),
    decreases es.len() - k,
{
    if k < es.len() {
        assert(es.take(k + 1).drop_last() =~= es.take(k));
        lemma_build_fails_on(config, es, k + 1);
    } else {
        assert(es.take(k) =~= es);
    }
}

impl ProjectBuilder {
    pub closed spec fn config_view(&self) -> ConfigView {
        self.config@
    }

    pub closed spec fn base_path_view(&self) -> Seq<char> {
        self.base_path@
    }

    pub closed spec fn codeowners_file_path_view(&self) -> Seq<char> {
        self.codeowners_file_path@
    }

    pub fn new(config: Config, base_path: String, codeowners_file_path: String) -> (r: Self)
        ensures
            r.config_view() == config@,
            r.base_path_view() == base_path@,
            r.codeowners_file_path_view() == codeowners_file_path@,
    {
        ProjectBuilder { config, base_path, codeowners_file_path }
    }

    /// What an entry of the walk is; an error when the entry does not lie
    /// under the project's root.
    pub fn build_entry_type(&self, absolute_path: &str, is_dir: bool) -> (r: Result<EntryType, Error>)
        ensures
            match r {
                Ok(t) => strip_prefix_spec(self.base_path_view(), absolute_path@) is Some && t@
                    == entry_kind_spec(
                    self.config_view(),
                    absolute_path@,
                    strip_prefix_spec(self.base_path_view(), absolute_path@).unwrap(),
                    is_dir,
                ),
                Err(e) => strip_prefix_spec(self.base_path_view(), absolute_path@) is None && e
                    == Error::Io,
            },
    {
        let relative_path = match strip_prefix(self.base_path.as_str(), absolute_path) {
            Some(r) => r,
            None => {
                return Err(Error::Io);
            },
        };
        if is_dir {
            return Ok(EntryType::Directory(absolute_path.to_owned(), relative_path));
        }
        let name = match file_name(relative_path.as_str()) {
            Some(n) => to_lowercase(n.as_str()),
            None => {
                return Ok(EntryType::NullEntry());
            },
        };
        let config = &self.config;
        if str_eq(name.as_str(), "package.yml") {
            if let Some(p) = parent(relative_path.as_str()) {
                if glob_list_matches(p.as_str(), &config.ruby_package_paths) {
                    return Ok(EntryType::RubyPackage(absolute_path.to_owned(), relative_path));
                }
            }
        }
        if str_eq(name.as_str(), "package.json") {
            if let Some(p) = parent(relative_path.as_str()) {
                if glob_list_matches(p.as_str(), &config.javascript_package_paths) {
                    return Ok(EntryType::JavascriptPackage(absolute_path.to_owned(), relative_path));
                }
            }
        }
        if str_eq(name.as_str(), ".codeowner") {
            return Ok(EntryType::CodeownerFile(absolute_path.to_owned(), relative_path));
        }
        if glob_list_matches(relative_path.as_str(), &config.team_file_glob) {
            return Ok(EntryType::TeamFile(absolute_path.to_owned(), relative_path));
        }
        if glob_list_matches(relative_path.as_str(), &config.owned_globs) && !glob_list_matches(
            relative_path.as_str(),
            &config.unowned_globs,
        ) {
            return Ok(EntryType::OwnedFile(absolute_path.to_owned(), relative_path));
        }
        Ok(EntryType::NullEntry())
    }

    /// The project that the entries of the walk make up, the entries taken
    /// in order; `codeowners_file` is the text of the CODEOWNERS file
    /// (`None` when it could not be read). The first entry that cannot be
    /// read gives the error.
    #[verifier::loop_isolation(false)]
    pub fn build_project_from_entry_types(
        &self,
        entry_types: Vec<EntryContent>,
        codeowners_file: Option<String>,
    ) -> (r: Result<Project, Error>)
        ensures
            match r {
                Ok(p) => build_upto(self.config_view(), entry_types@) matches Ok(st) && p@ == (
                ProjectView {
                    base_path: self.base_path_view(),
                    files: st.files,
                    packages: st.packages,
                    vendored_gems: st.vendored_gems,
                    teams: st.teams,
                    codeowners_file_path: self.codeowners_file_path_view(),
                    directory_codeowner_files: st.codeowners,
                    codeowners_file: opt_view(codeowners_file),
                    executable_name: self.config_view().executable_name,
                }),
                Err(e) => build_upto(self.config_view(), entry_types@) == Err::<BuildState, Error>(e),
            },
    {
        let ghost es = entry_types@;
        let ghost cv = self.config@;
        let mut files: Vec<ProjectFile> = Vec::new();
        let mut packages: Vec<Package> = Vec::new();
        let mut gems: Vec<VendoredGem> = Vec::new();
        let mut codeowners: Vec<DirectoryCodeownersFile> = Vec::new();
        let mut teams: Vec<Team> = Vec::new();
        assert(es.len() == entry_types.len());
        let mut rest = entry_types;
        let mut i: usize = 0;
        assert(es.take(0) =~= Seq::<EntryContent>::empty());
        assert(files@.map_values(|f: ProjectFile| f@) =~= Seq::<ProjectFileView>::empty());
        assert(packages@.map_values(|p: Package| p@) =~= Seq::<PackageView>::empty());
        assert(gems@.map_values(|g: VendoredGem| g@) =~= Seq::<VendoredGemView>::empty());
        assert(codeowners@.map_values(|d: DirectoryCodeownersFile| d@) =~= Seq::<
            DirectoryCodeownersFileView,
        >::empty());
        assert(teams@.map_values(|t: Team| t@) =~= Seq::<TeamView>::empty());
        while rest.len() > 0
            invariant
                i + rest.len() == es.len(),
                es.len() <= usize::MAX,
                rest@ == es.skip(i as int),
                cv == self.config@,
                build_upto(cv, es.take(i as int)) == Ok::<BuildState, Error>(
                    BuildState {
                        files: files@.map_values(|f: ProjectFile| f@),
                        packages: packages@.map_values(|p: Package| p@),
                        vendored_gems: gems@.map_values(|g: VendoredGem| g@),
                        codeowners: codeowners@.map_values(|d: DirectoryCodeownersFile| d@),
                        teams: teams@.map_values(|t: Team| t@),
                    },
                ),
            decreases rest.len(),
        {
            let ghost rv = rest@;
            let entry = rest.remove(0);
            assert(entry == es[i as int]) by {
                assert(rv[0] == es.skip(i as int)[0]);
            }
            assert(rest@ =~= es.skip(i + 1)) by {
                assert(rest@ =~= rv.drop_first());
            }
            assert(es.take(i + 1).drop_last() =~= es.take(i as int));
            assert(es.take(i + 1).last() == entry);
            let ghost f_before = files@;
            let ghost p_before = packages@;
            let ghost g_before = gems@;
            let ghost c_before = codeowners@;
            let ghost t_before = teams@;
            match entry {
                EntryContent::OwnedFile(project_file) => {
                    files.push(project_file);
                    assert(files@.map_values(|f: ProjectFile| f@) =~= f_before.map_values(
                        |f: ProjectFile| f@,
                    ).push(files@.last()@));
                },
                EntryContent::Directory(absolute_path, relative_path) => {
                    let under_vendored = match parent(relative_path.as_str()) {
                        Some(p) => path_eq(p.as_str(), self.config.vendored_gems_path.as_str()),
                        None => false,
                    };
                    if under_vendored {
                        match file_name(relative_path.as_str()) {
                            Some(name) => {
                                gems.push(VendoredGem { path: absolute_path, name });
                                assert(gems@.map_values(|g: VendoredGem| g@) =~= g_before.map_values(
                                    |g: VendoredGem| g@,
                                ).push(gems@.last()@));
                            },
                            None => {
                                proof {
                                    lemma_build_fails_on(cv, es, i + 1);
                                }
                                return Err(Error::Io);
                            },
                        }
                    }
                },
                EntryContent::RubyPackage(relative_path, package) => {
                    match ruby_package_owner(&package) {
                        Ok(Some(owner)) => {
                            packages.push(
                                Package { path: relative_path, owner, package_type: PackageType::Ruby },
                            );
                            assert(packages@.map_values(|p: Package| p@) =~= p_before.map_values(
                                |p: Package| p@,
                            ).push(packages@.last()@));
                        },
                        Ok(None) => {},
                        Err(e) => {
                            proof {
                                                lemma_build_fails_on(cv, es, i + 1);
                            }
                            return Err(e);
                        },
                    }
                },
                EntryContent::JavascriptPackage(relative_path, package) => {
                    match javascript_package_owner(&package) {
                        Some(owner) => {
                            packages.push(
                                Package {
                                    path: relative_path,
                                    owner,
                                    package_type: PackageType::Javascript,
                                },
                            );
                            assert(packages@.map_values(|p: Package| p@) =~= p_before.map_values(
                                |p: Package| p@,
                            ).push(packages@.last()@));
                        },
                        None => {},
                    }
                },
                EntryContent::CodeownerFile(relative_path, text) => {
                    let owner = trim(text.as_str());
                    codeowners.push(DirectoryCodeownersFile { path: relative_path, owner });
                    assert(codeowners@.map_values(|d: DirectoryCodeownersFile| d@) =~= c_before.map_values(
                        |d: DirectoryCodeownersFile| d@,
                    ).push(codeowners@.last()@));
                },
                EntryContent::TeamFile(absolute_path, team_file) => {
                    let ghost tf = team_file;
                    let team = Team::from_team_file(absolute_path, team_file);
                    assert(team@.owned_gems =~= team_from_file_spec(team.path@, tf).owned_gems);
                    assert(team@ == team_from_file_spec(team.path@, tf));
                    teams.push(team);
                    assert(teams@.map_values(|t: Team| t@) =~= t_before.map_values(|t: Team| t@).push(
                        teams@.last()@,
                    ));
                },
                EntryContent::NullEntry() => {},
            }
            i = i + 1;
        }
        assert(es.take(es.len() as int) =~= es);
        Ok(
            Project {
                base_path: self.base_path.clone(),
                files,
                packages,
                vendored_gems: gems,
                teams,
                codeowners_file_path: self.codeowners_file_path.clone(),
                directory_codeowner_files: codeowners,
                codeowners_file,
                executable_name: self.config.executable_name.clone(),
            },
        )
    }
}

} // verus!
