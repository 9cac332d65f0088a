//! Ownership by the globs that a team file lists under `owned_globs`.
use vstd::prelude::*;

use super::{overlaps, Mapper, OwnerMatcher, OwnerMatcherView, Source, SourceView};
use crate::ownership::{Entry, EntryView};
use crate::project::{Project, ProjectView, Team, TeamView};
use crate::text::to_owned_string;

verus! {

pub open spec fn glob_entries_of(t: TeamView) -> Seq<EntryView> {
    t.owned_globs.map_values(
        |g: Seq<char>|
            EntryView {
                path: g,
                github_team: t.github_team,
                team_name: t.name,
                disabled: t.avoid_ownership,
            },
    )
}

/// One line for each owned glob of each team, in the teams' order.
pub open spec fn team_glob_entries_spec(p: ProjectView) -> Seq<EntryView> {
    p.teams.map_values(|t: TeamView| glob_entries_of(t)).flatten_alt()
}

pub open spec fn glob_matcher_of(t: TeamView, g: Seq<char>) -> OwnerMatcherView {
    OwnerMatcherView::Glob {
        glob: g,
        subtracted_globs: t.subtracted_globs.filter(|c: Seq<char>| overlaps(g, c)),
        team_name: t.github_team,
        source: SourceView::TeamGlob(g),
    }
}

pub open spec fn glob_matchers_of(t: TeamView) -> Seq<OwnerMatcherView> {
    t.owned_globs.map_values(|g: Seq<char>| glob_matcher_of(t, g))
}

/// One glob matcher for each owned glob of each team, with the team's
/// subtracted globs that overlap it; the matcher names the team by its
/// GitHub team.
pub open spec fn team_glob_matchers_spec(p: ProjectView) -> Seq<OwnerMatcherView> {
    p.teams.map_values(|t: TeamView| glob_matchers_of(t)).flatten_alt()
}

pub proof fn lemma_flatten_alt_push<A>(ss: Seq<Seq<A>>, x: Seq<A>)
    ensures
        ss.push(x).flatten_alt() == ss.flatten_alt() + x,
{
    assert(ss.push(x).drop_last() =~= ss);
}

pub struct TeamGlobMapper<'a> {
    project: &'a Project,
}

impl<'a> TeamGlobMapper<'a> {
    pub closed spec fn project_view(&self) -> ProjectView {
        self.project@
    }

    pub fn build(project: &'a Project) -> (r: Self)
        ensures
            r.project_view() == project@,
    {
        TeamGlobMapper { project }
    }
}

impl<'a> Mapper for TeamGlobMapper<'a> {
    fn name(&self) -> (r: String)
        ensures
            r@ == "Team-specific owned globs"@,
    {
        to_owned_string("Team-specific owned globs")
    }

    fn entries(&self) -> (r: Vec<Entry>)
        ensures
            r@.map_values(|e: Entry| e@) == team_glob_entries_spec(self.project_view()),
    {
        let ghost p = self.project@;
        let ghost ts = p.teams;
        let teams = &self.project.teams;
        let mut entries: Vec<Entry> = Vec::new();
        let mut i: usize = 0;
        while i < teams.len()
            invariant
                i <= teams.len(),
                p == self.project@,
                ts == p.teams,
                teams@.map_values(|t: Team| t@) == ts,
                entries@.map_values(|e: Entry| e@) == ts.take(i as int).map_values(
                    |t: TeamView| glob_entries_of(t),
                ).flatten_alt(),
            decreases teams.len() - i,
        {
            let team = &teams[i];
            assert(ts[i as int] == team@);
            let ghost start = entries@.map_values(|e: Entry| e@);
            let ghost inner = glob_entries_of(team@);
            let mut j: usize = 0;
            while j < team.owned_globs.len()
                invariant
                    j <= team.owned_globs.len(),
                    inner == glob_entries_of(team@),
                    entries@.map_values(|e: Entry| e@) == start + inner.take(j as int),
                decreases team.owned_globs.len() - j,
            {
                let e = Entry {
                    path: team.owned_globs[j].clone(),
                    github_team: team.github_team.clone(),
                    team_name: team.name.clone(),
                    disabled: team.avoid_ownership,
                };
                let ghost before = entries@;
                entries.push(e);
                assert(entries@.map_values(|e: Entry| e@) =~= before.map_values(|e: Entry| e@).push(
                    inner[j as int],
                ));
                assert(inner.take(j + 1) =~= inner.take(j as int).push(inner[j as int]));
                assert(start + inner.take(j + 1) =~= (start + inner.take(j as int)).push(
                    inner[j as int],
                ));
                j = j + 1;
            }
            assert(inner.take(team.owned_globs.len() as int) =~= inner);
            proof {
                let g = |t: TeamView| glob_entries_of(t);
                assert(ts.take(i + 1).map_values(g) =~= ts.take(i as int).map_values(g).push(
                    inner,
                ));
                lemma_flatten_alt_push(ts.take(i as int).map_values(g), inner);
            }
            i = i + 1;
        }
        assert(ts.take(teams.len() as int) =~= ts);
        entries
    }

    fn owner_matchers(&self) -> (r: Vec<OwnerMatcher>)
        ensures
            r@.map_values(|m: OwnerMatcher| m@) == team_glob_matchers_spec(self.project_view()),
    {
        let ghost p = self.project@;
        let ghost ts = p.teams;
        let teams = &self.project.teams;
        let mut matchers: Vec<OwnerMatcher> = Vec::new();
        let mut i: usize = 0;
        while i < teams.len()
            invariant
                i <= teams.len(),
                p == self.project@,
                ts == p.teams,
                teams@.map_values(|t: Team| t@) == ts,
                matchers@.map_values(|m: OwnerMatcher| m@) == ts.take(i as int).map_values(
                    |t: TeamView| glob_matchers_of(t),
                ).flatten_alt(),
            decreases teams.len() - i,
        {
            let team = &teams[i];
            assert(ts[i as int] == team@);
            let ghost start = matchers@.map_values(|m: OwnerMatcher| m@);
            let ghost inner = glob_matchers_of(team@);
            let mut j: usize = 0;
            while j < team.owned_globs.len()
                invariant
                    j <= team.owned_globs.len(),
                    inner == glob_matchers_of(team@),
                    matchers@.map_values(|m: OwnerMatcher| m@) == start + inner.take(j as int),
                decreases team.owned_globs.len() - j,
            {
                let glob = &team.owned_globs[j];
                let m = OwnerMatcher::new_glob_with_candidate_subtracted_globs(
                    glob.clone(),
                    &team.subtracted_globs,
                    team.github_team.clone(),
                    Source::TeamGlob(glob.clone()),
                );
                let ghost before = matchers@;
                matchers.push(m);
                assert(inner[j as int] == glob_matcher_of(team@, glob@));
                assert(matchers@.map_values(|m: OwnerMatcher| m@) =~= before.map_values(
                    |m: OwnerMatcher| m@,
                ).push(inner[j as int]));
                assert(inner.take(j + 1) =~= inner.take(j as int).push(inner[j as int]));
                assert(start + inner.take(j + 1) =~= (start + inner.take(j as int)).push(
                    inner[j as int],
                ));
                j = j + 1;
            }
            assert(inner.take(team.owned_globs.len() as int) =~= inner);
            proof {
                let g = |t: TeamView| glob_matchers_of(t);
                assert(ts.take(i + 1).map_values(g) =~= ts.take(i as int).map_values(g).push(
                    inner,
                ));
                lemma_flatten_alt_push(ts.take(i as int).map_values(g), inner);
            }
            i = i + 1;
        }
        assert(ts.take(teams.len() as int) =~= ts);
        matchers
    }
}

} // verus!
