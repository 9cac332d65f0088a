//! Ownership of the team files themselves: each team owns its own file.
use vstd::prelude::*;

use super::{Mapper, OwnerMatcher, OwnerMatcherView, Source, SourceView};
use crate::ownership::{Entry, EntryView};
use crate::project::{relative_spec, Project, ProjectView, Team, TeamView};
use crate::strmap::{map_of, StrMap};
use crate::text::to_owned_string;

verus! {

pub open spec fn team_yml_entry(p: ProjectView, t: TeamView) -> EntryView {
    EntryView {
        path: relative_spec(p, t.path),
        github_team: t.github_team,
        team_name: t.name,
        disabled: t.avoid_ownership,
    }
}

/// One line for each team's file.
pub open spec fn team_yml_entries_spec(p: ProjectView) -> Seq<EntryView> {
    p.teams.map_values(|t: TeamView| team_yml_entry(p, t))
}

pub open spec fn team_yml_pairs(p: ProjectView) -> Seq<(Seq<char>, Seq<char>)> {
    p.teams.map_values(|t: TeamView| (relative_spec(p, t.path), t.name))
}

/// One exact matcher that gives each team file its team.
pub open spec fn team_yml_matchers_spec(p: ProjectView) -> Seq<OwnerMatcherView> {
    seq![OwnerMatcherView::ExactMatches(map_of(team_yml_pairs(p)), SourceView::TeamYml)]
}

pub struct TeamYmlMapper<'a> {
    project: &'a Project,
}

impl<'a> TeamYmlMapper<'a> {
    #[verifier::type_invariant]
    spec fn inv(&self) -> bool {
        self.project.wf()
    }

    pub closed spec fn project_view(&self) -> ProjectView {
        self.project@
    }

    pub fn build(project: &'a Project) -> (r: Self)
        requires
            project.wf(),
        ensures
            r.project_view() == project@,
    {
        TeamYmlMapper { project }
    }
}

impl<'a> Mapper for TeamYmlMapper<'a> {
    fn name(&self) -> (r: String)
        ensures
            r@ == "Team YML ownership"@,
    {
        to_owned_string("Team YML ownership")
    }

    fn entries(&self) -> (r: Vec<Entry>)
        ensures
            r@.map_values(|e: Entry| e@) == team_yml_entries_spec(self.project_view()),
    {
        proof {
            use_type_invariant(self);
        }
        let ghost p = self.project@;
        let ghost ts = p.teams;
        let teams = &self.project.teams;
        let mut entries: Vec<Entry> = Vec::new();
        let mut i: usize = 0;
        while i < teams.len()
            invariant
                i <= teams.len(),
                p == self.project@,
                crate::project::project_wf(p),
                ts == p.teams,
                teams@.map_values(|t: Team| t@) == ts,
                entries@.map_values(|e: Entry| e@) == ts.take(i as int).map_values(
                    |t: TeamView| team_yml_entry(p, t),
                ),
            decreases teams.len() - i,
        {
            let team = &teams[i];
            assert(ts[i as int] == team@);
            assert(crate::project::under_base(p, p.teams[i as int].path));
            let e = Entry {
                path: self.project.relative_path(team.path.as_str()),
                github_team: team.github_team.clone(),
                team_name: team.name.clone(),
                disabled: team.avoid_ownership,
            };
            let ghost before = entries@;
            entries.push(e);
            assert(entries@.map_values(|e: Entry| e@) =~= before.map_values(|e: Entry| e@).push(
                team_yml_entry(p, team@),
            ));
            assert(ts.take(i + 1).map_values(|t: TeamView| team_yml_entry(p, t)) =~= ts.take(
                i as int,
            ).map_values(|t: TeamView| team_yml_entry(p, t)).push(team_yml_entry(p, team@)));
            i = i + 1;
        }
        assert(ts.take(teams.len() as int) =~= ts);
        entries
    }

    fn owner_matchers(&self) -> (r: Vec<OwnerMatcher>)
        ensures
            r@.map_values(|m: OwnerMatcher| m@) == team_yml_matchers_spec(self.project_view()),
    {
        proof {
            use_type_invariant(self);
        }
        let ghost p = self.project@;
        let ghost ts = p.teams;
        let teams = &self.project.teams;
        let mut path_to_team: StrMap<String> = StrMap::new();
        let mut i: usize = 0;
        while i < teams.len()
            invariant
                i <= teams.len(),
                p == self.project@,
                crate::project::project_wf(p),
                ts == p.teams,
                teams@.map_values(|t: Team| t@) == ts,
                path_to_team.pairs() == ts.take(i as int).map_values(
                    |t: TeamView| (relative_spec(p, t.path), t.name),
                ),
            decreases teams.len() - i,
        {
            let team = &teams[i];
            assert(ts[i as int] == team@);
            assert(crate::project::under_base(p, p.teams[i as int].path));
            let rel = self.project.relative_path(team.path.as_str());
            path_to_team.insert(rel, team.name.clone());
            assert(ts.take(i + 1).map_values(|t: TeamView| (relative_spec(p, t.path), t.name))
                =~= ts.take(i as int).map_values(|t: TeamView| (relative_spec(p, t.path), t.name)).push(
                (relative_spec(p, team@.path), team@.name),
            ));
            i = i + 1;
        }
        assert(ts.take(teams.len() as int) =~= ts);
        let mut r: Vec<OwnerMatcher> = Vec::new();
        r.push(OwnerMatcher::ExactMatches(path_to_team, Source::TeamYml));
        assert(r@.map_values(|m: OwnerMatcher| m@) =~= team_yml_matchers_spec(p));
        r
    }
}

} // verus!
