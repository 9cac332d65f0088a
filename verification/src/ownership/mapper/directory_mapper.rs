//! Ownership of whole directories, declared by a `.codeowner` file in them.
use vstd::prelude::*;

use super::escaper::{escape_brackets, escape_spec};
use super::{Mapper, OwnerMatcher, OwnerMatcherView, Source, SourceView};
use crate::ownership::{Entry, EntryView};
use crate::path::parent_spec;
use crate::project::{
    teams_by_name_spec, DirectoryCodeownersFileView, Project, ProjectView, TeamView,
};
use crate::text::{push_str, to_owned_string};

verus! {

/// The directory of a `.codeowner` file.
pub open spec fn dir_root_spec(d: DirectoryCodeownersFileView) -> Seq<char> {
    parent_spec(d.path).unwrap()
}

pub open spec fn all_below(dir: Seq<char>) -> Seq<char> {
    dir + "/**/**"@
}

pub open spec fn directory_entry(
    teams: Map<Seq<char>, TeamView>,
    d: DirectoryCodeownersFileView,
) -> Option<EntryView> {
    if teams.contains_key(d.owner) {
        let t = teams[d.owner];
        Some(
            EntryView {
                path: all_below(escape_spec(dir_root_spec(d))),
                github_team: t.github_team,
                team_name: t.name,
                disabled: t.avoid_ownership,
            },
        )
    } else {
        None
    }
}

/// One line for each `.codeowner` file that names a known team.
pub open spec fn directory_entries_spec(p: ProjectView) -> Seq<EntryView> {
    p.directory_codeowner_files.filter_map(
        |d: DirectoryCodeownersFileView| directory_entry(teams_by_name_spec(p.teams), d),
    )
}

pub open spec fn directory_matcher(d: DirectoryCodeownersFileView) -> OwnerMatcherView {
    OwnerMatcherView::Glob {
        glob: all_below(escape_spec(dir_root_spec(d))),
        subtracted_globs: Seq::empty(),
        team_name: d.owner,
        source: SourceView::Directory(dir_root_spec(d)),
    }
}

/// One glob matcher for each `.codeowner` file, whatever team it names.
pub open spec fn directory_matchers_spec(p: ProjectView) -> Seq<OwnerMatcherView> {
    p.directory_codeowner_files.map_values(|d: DirectoryCodeownersFileView| directory_matcher(d))
}

/// `dir` followed by `/**/**`.
pub fn glob_all_below(dir: &str) -> (r: String)
    ensures
        r@ == all_below(dir@),
{
    let mut r = to_owned_string(dir);
    push_str(&mut r, "/**/**");
    r
}

pub struct DirectoryMapper<'a> {
    project: &'a Project,
}

impl<'a> DirectoryMapper<'a> {
    #[verifier::type_invariant]
    spec fn inv(&self) -> bool {
        self.project.wf()
    }

    pub closed spec fn project_view(&self) -> ProjectView {
        self.project@
    }

    pub fn build(project: &'a Project) -> (r: Self)
        requires
            project.wf(),
        ensures
            r.project_view() == project@,
    {
        DirectoryMapper { project }
    }
}

impl<'a> Mapper for DirectoryMapper<'a> {
    fn name(&self) -> (r: String)
        ensures
            r@ == "Owner in .codeowner"@,
    {
        to_owned_string("Owner in .codeowner")
    }

    fn entries(&self) -> (r: Vec<Entry>)
        ensures
            r@.map_values(|e: Entry| e@) == directory_entries_spec(self.project_view()),
    {
        proof {
            use_type_invariant(self);
        }
        let ghost p = self.project@;
        let ghost ds = p.directory_codeowner_files;
        let ghost f = |d: DirectoryCodeownersFileView| directory_entry(teams_by_name_spec(p.teams), d);
        let team_by_name = self.project.team_by_name();
        let files = &self.project.directory_codeowner_files;
        let mut entries: Vec<Entry> = Vec::new();
        let mut i: usize = 0;
        while i < files.len()
            invariant
                i <= files.len(),
                p == self.project@,
                project_wf_dirs(p),
                ds == p.directory_codeowner_files,
                files@.map_values(|d: crate::project::DirectoryCodeownersFile| d@) == ds,
                f == (|d: DirectoryCodeownersFileView| directory_entry(teams_by_name_spec(p.teams), d)),
                team_by_name@ == teams_by_name_spec(p.teams),
                entries@.map_values(|e: Entry| e@) == ds.take(i as int).filter_map(f),
            decreases files.len() - i,
        {
            let file = &files[i];
            assert(ds[i as int] == file@);
            assert(ds.take(i + 1).drop_last() =~= ds.take(i as int));
            assert(ds.take(i + 1).last() == file@);
            assert(parent_spec(p.directory_codeowner_files[i as int].path) is Some);
            let root = file.directory_root().unwrap();
            if let Some(team) = team_by_name.get(file.owner.as_str()) {
                let escaped = escape_brackets(root.as_str());
                let e = Entry {
                    path: glob_all_below(escaped.as_str()),
                    github_team: team.github_team.clone(),
                    team_name: team.name.clone(),
                    disabled: team.avoid_ownership,
                };
                let ghost before = entries@;
                entries.push(e);
                assert(entries@.map_values(|e: Entry| e@) =~= before.map_values(|e: Entry| e@).push(
                    f(file@).unwrap(),
                ));
            }
            i = i + 1;
        }
        assert(ds.take(files.len() as int) =~= ds);
        entries
    }

    fn owner_matchers(&self) -> (r: Vec<OwnerMatcher>)
        ensures
            r@.map_values(|m: OwnerMatcher| m@) == directory_matchers_spec(self.project_view()),
    {
        proof {
            use_type_invariant(self);
        }
        let ghost p = self.project@;
        let ghost ds = p.directory_codeowner_files;
        let files = &self.project.directory_codeowner_files;
        let mut owner_matchers: Vec<OwnerMatcher> = Vec::new();
        let mut i: usize = 0;
        while i < files.len()
            invariant
                i <= files.len(),
                p == self.project@,
                project_wf_dirs(p),
                ds == p.directory_codeowner_files,
                files@.map_values(|d: crate::project::DirectoryCodeownersFile| d@) == ds,
                owner_matchers@.map_values(|m: OwnerMatcher| m@) == ds.take(i as int).map_values(
                    |d: DirectoryCodeownersFileView| directory_matcher(d),
                ),
            decreases files.len() - i,
        {
            let file = &files[i];
            assert(ds[i as int] == file@);
            let root = file.directory_root().unwrap();
            let escaped = escape_brackets(root.as_str());
            let m = OwnerMatcher::new_glob(
                glob_all_below(escaped.as_str()),
                file.owner.clone(),
                Source::Directory(root),
            );
            let ghost before = owner_matchers@;
            owner_matchers.push(m);
            assert(owner_matchers@.map_values(|m: OwnerMatcher| m@) =~= before.map_values(
                |m: OwnerMatcher| m@,
            ).push(directory_matcher(file@)));
            assert(ds.take(i + 1).map_values(|d: DirectoryCodeownersFileView| directory_matcher(d))
                =~= ds.take(i as int).map_values(
                |d: DirectoryCodeownersFileView| directory_matcher(d),
            ).push(directory_matcher(file@)));
            i = i + 1;
        }
        assert(ds.take(files.len() as int) =~= ds);
        owner_matchers
    }
}

pub open spec fn project_wf_dirs(p: ProjectView) -> bool {
    forall|i: int|
        0 <= i < p.directory_codeowner_files.len() ==> parent_spec(
            #[trigger] p.directory_codeowner_files[i].path,
        ) is Some
}

} // verus!
