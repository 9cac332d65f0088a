//! Ownership of single files, declared by an annotation on the file's first
//! line.
use vstd::prelude::*;

use super::escaper::{escape_brackets, escape_spec};
use super::{Mapper, OwnerMatcher, OwnerMatcherView, Source, SourceView};
use crate::ownership::{Entry, EntryView};
use crate::project::{
    relative_spec, teams_by_name_spec, Project, ProjectFile, ProjectFileView, ProjectView, TeamView,
};
use crate::strmap::{map_of, StrMap};
use crate::text::to_owned_string;

verus! {

pub open spec fn annotated_entry(
    p: ProjectView,
    teams: Map<Seq<char>, TeamView>,
    f: ProjectFileView,
) -> Option<EntryView> {
    match f.owner {
        Some(o) => if teams.contains_key(o) {
            let t = teams[o];
            Some(
                EntryView {
                    path: escape_spec(relative_spec(p, f.path)),
                    github_team: t.github_team,
                    team_name: t.name,
                    disabled: t.avoid_ownership,
                },
            )
        } else {
            None
        },
        None => None,
    }
}

/// One line for each file annotated with a known team.
pub open spec fn team_file_entries_spec(p: ProjectView) -> Seq<EntryView> {
    p.files.filter_map(|f: ProjectFileView| annotated_entry(p, teams_by_name_spec(p.teams), f))
}

pub open spec fn annotated_pair(
    p: ProjectView,
    teams: Map<Seq<char>, TeamView>,
    f: ProjectFileView,
) -> Option<(Seq<char>, Seq<char>)> {
    match f.owner {
        Some(o) => if teams.contains_key(o) {
            Some((relative_spec(p, f.path), teams[o].name))
        } else {
            None
        },
        None => None,
    }
}

/// The relative paths of the files annotated with a known team, and the team.
pub open spec fn annotated_pairs(p: ProjectView) -> Seq<(Seq<char>, Seq<char>)> {
    p.files.filter_map(|f: ProjectFileView| annotated_pair(p, teams_by_name_spec(p.teams), f))
}

/// One exact matcher that gives each annotated file its team.
pub open spec fn team_file_matchers_spec(p: ProjectView) -> Seq<OwnerMatcherView> {
    seq![OwnerMatcherView::ExactMatches(map_of(annotated_pairs(p)), SourceView::AnnotatedFile)]
}

pub struct TeamFileMapper<'a> {
    project: &'a Project,
}

impl<'a> TeamFileMapper<'a> {
    #[verifier::type_invariant]
    spec fn inv(&self) -> bool {
        self.project.wf()
    }

    pub closed spec fn project_view(&self) -> ProjectView {
        self.project@
    }

    pub fn build(project: &'a Project) -> (r: Self)
        requires
            project.wf(),
        ensures
            r.project_view() == project@,
    {
        TeamFileMapper { project }
    }
}

impl<'a> Mapper for TeamFileMapper<'a> {
    fn name(&self) -> (r: String)
        ensures
            r@ == "Annotations at the top of file"@,
    {
        to_owned_string("Annotations at the top of file")
    }

    fn entries(&self) -> (r: Vec<Entry>)
        ensures
            r@.map_values(|e: Entry| e@) == team_file_entries_spec(self.project_view()),
    {
        proof {
            use_type_invariant(self);
        }
        let ghost p = self.project@;
        let ghost fs = p.files;
        let ghost f = |x: ProjectFileView| annotated_entry(p, teams_by_name_spec(p.teams), x);
        let team_by_name = self.project.team_by_name();
        let files = &self.project.files;
        let mut entries: Vec<Entry> = Vec::new();
        let mut i: usize = 0;
        while i < files.len()
            invariant
                i <= files.len(),
                p == self.project@,
                crate::project::project_wf(p),
                fs == p.files,
                files@.map_values(|x: ProjectFile| x@) == fs,
                f == (|x: ProjectFileView| annotated_entry(p, teams_by_name_spec(p.teams), x)),
                team_by_name@ == teams_by_name_spec(p.teams),
                entries@.map_values(|e: Entry| e@) == fs.take(i as int).filter_map(f),
            decreases files.len() - i,
        {
            let file = &files[i];
            assert(fs[i as int] == file@);
            assert(fs.take(i + 1).drop_last() =~= fs.take(i as int));
            assert(fs.take(i + 1).last() == file@);
            if let Some(owner) = &file.owner {
                if let Some(team) = team_by_name.get(owner.as_str()) {
                    assert(crate::project::under_base(p, p.files[i as int].path));
                    let rel = self.project.relative_path(file.path.as_str());
                    let e = Entry {
                        path: escape_brackets(rel.as_str()),
                        github_team: team.github_team.clone(),
                        team_name: team.name.clone(),
                        disabled: team.avoid_ownership,
                    };
                    let ghost before = entries@;
                    entries.push(e);
                    assert(entries@.map_values(|e: Entry| e@) =~= before.map_values(
                        |e: Entry| e@,
                    ).push(f(file@).unwrap()));
                }
            }
            i = i + 1;
        }
        assert(fs.take(files.len() as int) =~= fs);
        entries
    }

    fn owner_matchers(&self) -> (r: Vec<OwnerMatcher>)
        ensures
            r@.map_values(|m: OwnerMatcher| m@) == team_file_matchers_spec(self.project_view()),
    {
        proof {
            use_type_invariant(self);
        }
        let ghost p = self.project@;
        let ghost fs = p.files;
        let ghost f = |x: ProjectFileView| annotated_pair(p, teams_by_name_spec(p.teams), x);
        let team_by_name = self.project.team_by_name();
        let files = &self.project.files;
        let mut path_to_team: StrMap<String> = StrMap::new();
        let mut i: usize = 0;
        while i < files.len()
            invariant
                i <= files.len(),
                p == self.project@,
                crate::project::project_wf(p),
                fs == p.files,
                files@.map_values(|x: ProjectFile| x@) == fs,
                f == (|x: ProjectFileView| annotated_pair(p, teams_by_name_spec(p.teams), x)),
                team_by_name@ == teams_by_name_spec(p.teams),
                path_to_team.pairs() == fs.take(i as int).filter_map(f),
            decreases files.len() - i,
        {
            let file = &files[i];
            assert(fs[i as int] == file@);
            assert(fs.take(i + 1).drop_last() =~= fs.take(i as int));
            assert(fs.take(i + 1).last() == file@);
            if let Some(owner) = &file.owner {
                if let Some(team) = team_by_name.get(owner.as_str()) {
                    assert(crate::project::under_base(p, p.files[i as int].path));
                    let rel = self.project.relative_path(file.path.as_str());
                    path_to_team.insert(rel, team.name.clone());
                }
            }
            i = i + 1;
        }
        assert(fs.take(files.len() as int) =~= fs);
        let mut r: Vec<OwnerMatcher> = Vec::new();
        r.push(OwnerMatcher::ExactMatches(path_to_team, Source::AnnotatedFile));
        assert(r@.map_values(|m: OwnerMatcher| m@) =~= team_file_matchers_spec(p));
        r
    }
}

} // verus!
