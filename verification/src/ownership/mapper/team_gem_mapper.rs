//! Ownership of vendored gems, declared by a team file's `owned_gems`.
use vstd::prelude::*;

use super::team_glob_mapper::lemma_flatten_alt_push;
use super::{Mapper, OwnerMatcher, OwnerMatcherView, Source, SourceView};
use crate::ownership::{Entry, EntryView};
use crate::project::{
    gems_by_name_spec, relative_spec, Project, ProjectView, Team, TeamView, VendoredGemView,
};
use crate::text::{push_str, to_owned_string};

verus! {

pub open spec fn gem_entry(
    p: ProjectView,
    gems: Map<Seq<char>, VendoredGemView>,
    t: TeamView,
    gem: Seq<char>,
) -> Option<EntryView> {
    if gems.contains_key(gem) {
        Some(
            EntryView {
                path: relative_spec(p, gems[gem].path) + "/**/**"@,
                github_team: t.github_team,
                team_name: t.name,
                disabled: t.avoid_ownership,
            },
        )
    } else {
        None
    }
}

pub open spec fn gem_entries_of(p: ProjectView, t: TeamView) -> Seq<EntryView> {
    t.owned_gems.filter_map(
        |gem: Seq<char>| gem_entry(p, gems_by_name_spec(p.vendored_gems), t, gem),
    )
}

/// One line for each owned gem of each team that is vendored in the project.
pub open spec fn team_gem_entries_spec(p: ProjectView) -> Seq<EntryView> {
    p.teams.map_values(|t: TeamView| gem_entries_of(p, t)).flatten_alt()
}

pub open spec fn gem_matcher(
    p: ProjectView,
    gems: Map<Seq<char>, VendoredGemView>,
    t: TeamView,
    gem: Seq<char>,
) -> Option<OwnerMatcherView> {
    if gems.contains_key(gem) {
        Some(
            OwnerMatcherView::Glob {
                glob: relative_spec(p, gems[gem].path) + "/**/*"@,
                subtracted_globs: Seq::empty(),
                team_name: t.name,
                source: SourceView::TeamGem,
            },
        )
    } else {
        None
    }
}

pub open spec fn gem_matchers_of(p: ProjectView, t: TeamView) -> Seq<OwnerMatcherView> {
    t.owned_gems.filter_map(
        |gem: Seq<char>| gem_matcher(p, gems_by_name_spec(p.vendored_gems), t, gem),
    )
}

/// One glob matcher for each owned gem of each team that is vendored.
pub open spec fn team_gem_matchers_spec(p: ProjectView) -> Seq<OwnerMatcherView> {
    p.teams.map_values(|t: TeamView| gem_matchers_of(p, t)).flatten_alt()
}

pub struct TeamGemMapper<'a> {
    project: &'a Project,
}

impl<'a> TeamGemMapper<'a> {
    #[verifier::type_invariant]
    spec fn inv(&self) -> bool {
        self.project.wf()
    }

    pub closed spec fn project_view(&self) -> ProjectView {
        self.project@
    }

    pub fn build(project: &'a Project) -> (r: Self)
        requires
            project.wf(),
        ensures
            r.project_view() == project@,
    {
        TeamGemMapper { project }
    }
}

proof fn lemma_gem_under_base(p: ProjectView, gems: Map<Seq<char>, VendoredGemView>, gem: Seq<char>)
    requires
        crate::project::project_wf(p),
        gems == gems_by_name_spec(p.vendored_gems),
        gems.contains_key(gem),
    ensures
        crate::project::under_base(p, gems[gem].path),
{
    lemma_map_of_values(p.vendored_gems, gem);
}

/// A value of the gems map is one of the project's gems.
proof fn lemma_map_of_values(gs: Seq<VendoredGemView>, k: Seq<char>)
    requires
        gems_by_name_spec(gs).contains_key(k),
    ensures
        exists|i: int| 0 <= i < gs.len() && gs[i] == gems_by_name_spec(gs)[k],
    decreases gs.len(),
{
    let f = |g: VendoredGemView| (g.name, g);
    assert(gs.map_values(f).drop_last() =~= gs.drop_last().map_values(f));
    if gs.len() > 0 {
        if gs.last().name == k {
            assert(gs[gs.len() - 1] == gems_by_name_spec(gs)[k]);
        } else {
            lemma_map_of_values(gs.drop_last(), k);
            let i = choose|i: int| 0 <= i < gs.drop_last().len() && gs.drop_last()[i] == gems_by_name_spec(gs.drop_last())[k];
            assert(gs[i] == gems_by_name_spec(gs)[k]);
        }
    }
}

impl<'a> Mapper for TeamGemMapper<'a> {
    fn name(&self) -> (r: String)
        ensures
            r@ == "Team owned gems"@,
    {
        to_owned_string("Team owned gems")
    }

    fn entries(&self) -> (r: Vec<Entry>)
        ensures
            r@.map_values(|e: Entry| e@) == team_gem_entries_spec(self.project_view()),
    {
        proof {
            use_type_invariant(self);
        }
        let ghost p = self.project@;
        let ghost ts = p.teams;
        let vendored_gem_by_name = self.project.vendored_gem_by_name();
        let teams = &self.project.teams;
        let mut entries: Vec<Entry> = Vec::new();
        let mut i: usize = 0;
        while i < teams.len()
            invariant
                i <= teams.len(),
                p == self.project@,
                crate::project::project_wf(p),
                ts == p.teams,
                teams@.map_values(|t: Team| t@) == ts,
                vendored_gem_by_name@ == gems_by_name_spec(p.vendored_gems),
                entries@.map_values(|e: Entry| e@) == ts.take(i as int).map_values(
                    |t: TeamView| gem_entries_of(p, t),
                ).flatten_alt(),
            decreases teams.len() - i,
        {
            let team = &teams[i];
            assert(ts[i as int] == team@);
            let ghost start = entries@.map_values(|e: Entry| e@);
            let ghost gs = team@.owned_gems;
            let ghost f = |gem: Seq<char>| gem_entry(p, gems_by_name_spec(p.vendored_gems), team@, gem);
            let mut j: usize = 0;
            while j < team.owned_gems.len()
                invariant
                    j <= team.owned_gems.len(),
                    gs == team@.owned_gems,
                    crate::project::project_wf(p),
                    p == self.project@,
                    vendored_gem_by_name@ == gems_by_name_spec(p.vendored_gems),
                    f == (|gem: Seq<char>| gem_entry(p, gems_by_name_spec(p.vendored_gems), team@, gem)),
                    entries@.map_values(|e: Entry| e@) == start + gs.take(j as int).filter_map(f),
                decreases team.owned_gems.len() - j,
            {
                let gem = &team.owned_gems[j];
                assert(gs[j as int] == gem@);
                assert(gs.take(j + 1).drop_last() =~= gs.take(j as int));
                assert(gs.take(j + 1).last() == gem@);
                if let Some(vendored_gem) = vendored_gem_by_name.get(gem.as_str()) {
                    proof {
                        lemma_gem_under_base(p, gems_by_name_spec(p.vendored_gems), gem@);
                    }
                    let mut path = self.project.relative_path(vendored_gem.path.as_str());
                    push_str(&mut path, "/**/**");
                    let e = Entry {
                        path,
                        github_team: team.github_team.clone(),
                        team_name: team.name.clone(),
                        disabled: team.avoid_ownership,
                    };
                    let ghost before = entries@;
                    entries.push(e);
                    assert(entries@.map_values(|e: Entry| e@) =~= before.map_values(
                        |e: Entry| e@,
                    ).push(f(gem@).unwrap()));
                    assert(start + gs.take(j + 1).filter_map(f) =~= (start + gs.take(
                        j as int,
                    ).filter_map(f)).push(f(gem@).unwrap()));
                }
                j = j + 1;
            }
            assert(gs.take(team.owned_gems.len() as int) =~= gs);
            proof {
                let g = |t: TeamView| gem_entries_of(p, t);
                assert(ts.take(i + 1).map_values(g) =~= ts.take(i as int).map_values(g).push(
                    gem_entries_of(p, team@),
                ));
                lemma_flatten_alt_push(ts.take(i as int).map_values(g), gem_entries_of(p, team@));
            }
            i = i + 1;
        }
        assert(ts.take(teams.len() as int) =~= ts);
        entries
    }

    fn owner_matchers(&self) -> (r: Vec<OwnerMatcher>)
        ensures
            r@.map_values(|m: OwnerMatcher| m@) == team_gem_matchers_spec(self.project_view()),
    {
        proof {
            use_type_invariant(self);
        }
        let ghost p = self.project@;
        let ghost ts = p.teams;
        let vendored_gem_by_name = self.project.vendored_gem_by_name();
        let teams = &self.project.teams;
        let mut matchers: Vec<OwnerMatcher> = Vec::new();
        let mut i: usize = 0;
        while i < teams.len()
            invariant
                i <= teams.len(),
                p == self.project@,
                crate::project::project_wf(p),
                ts == p.teams,
                teams@.map_values(|t: Team| t@) == ts,
                vendored_gem_by_name@ == gems_by_name_spec(p.vendored_gems),
                matchers@.map_values(|m: OwnerMatcher| m@) == ts.take(i as int).map_values(
                    |t: TeamView| gem_matchers_of(p, t),
                ).flatten_alt(),
            decreases teams.len() - i,
        {
            let team = &teams[i];
            assert(ts[i as int] == team@);
            let ghost start = matchers@.map_values(|m: OwnerMatcher| m@);
            let ghost gs = team@.owned_gems;
            let ghost f = |gem: Seq<char>| gem_matcher(p, gems_by_name_spec(p.vendored_gems), team@, gem);
            let mut j: usize = 0;
            while j < team.owned_gems.len()
                invariant
                    j <= team.owned_gems.len(),
                    gs == team@.owned_gems,
                    crate::project::project_wf(p),
                    p == self.project@,
                    vendored_gem_by_name@ == gems_by_name_spec(p.vendored_gems),
                    f == (|gem: Seq<char>| gem_matcher(p, gems_by_name_spec(p.vendored_gems), team@, gem)),
                    matchers@.map_values(|m: OwnerMatcher| m@) == start + gs.take(j as int).filter_map(f),
                decreases team.owned_gems.len() - j,
            {
                let gem = &team.owned_gems[j];
                assert(gs[j as int] == gem@);
                assert(gs.take(j + 1).drop_last() =~= gs.take(j as int));
                assert(gs.take(j + 1).last() == gem@);
                if let Some(vendored_gem) = vendored_gem_by_name.get(gem.as_str()) {
                    proof {
                        lemma_gem_under_base(p, gems_by_name_spec(p.vendored_gems), gem@);
                    }
                    let mut glob = self.project.relative_path(vendored_gem.path.as_str());
                    push_str(&mut glob, "/**/*");
                    let m = OwnerMatcher::new_glob(glob, team.name.clone(), Source::TeamGem);
                    let ghost before = matchers@;
                    matchers.push(m);
                    assert(matchers@.map_values(|m: OwnerMatcher| m@) =~= before.map_values(
                        |m: OwnerMatcher| m@,
                    ).push(f(gem@).unwrap()));
                    assert(start + gs.take(j + 1).filter_map(f) =~= (start + gs.take(
                        j as int,
                    ).filter_map(f)).push(f(gem@).unwrap()));
                }
                j = j + 1;
            }
            assert(gs.take(team.owned_gems.len() as int) =~= gs);
            proof {
                let g = |t: TeamView| gem_matchers_of(p, t);
                assert(ts.take(i + 1).map_values(g) =~= ts.take(i as int).map_values(g).push(
                    gem_matchers_of(p, team@),
                ));
                lemma_flatten_alt_push(ts.take(i as int).map_values(g), gem_matchers_of(p, team@));
            }
            i = i + 1;
        }
        assert(ts.take(teams.len() as int) =~= ts);
        matchers
    }
}

} // verus!
