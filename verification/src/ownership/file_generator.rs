//! The CODEOWNERS file of a project: a disclaimer, then one section per way
//! of owning files, each with its lines sorted and without repetition.
use vstd::prelude::*;

use crate::project::{
    DirectoryCodeownersFileView, PackageView, ProjectFileView, gems_by_name_spec, project_wf, team_keys, teams_by_any_name_spec, teams_by_name_spec, PackageType,
    Project, ProjectView, TeamView,
};
use crate::strmap::map_of;
use crate::sort::{sorted_set, sorted_unique};
use crate::text::{concat, is_prefix, join, join_spec, to_owned_string};

use super::mapper::directory_mapper::directory_entries_spec;
use super::mapper::package_mapper::package_entries_spec;
use super::mapper::team_file_mapper::team_file_entries_spec;
use super::mapper::team_gem_mapper::team_gem_entries_spec;
use super::mapper::team_glob_mapper::team_glob_entries_spec;
use super::mapper::team_yml_mapper::team_yml_entries_spec;
use super::mapper::{
    DirectoryMapper, JavascriptPackageMapper, Mapper, RubyPackageMapper, TeamFileMapper,
    TeamGemMapper, TeamGlobMapper, TeamYmlMapper,
};
use super::for_file_fast::lemma_flatten_alt_elem;
use super::mapper::directory_mapper::directory_entry;
use super::mapper::package_mapper::package_entry;
use super::mapper::team_file_mapper::annotated_entry;
use super::mapper::team_gem_mapper::{gem_entries_of, gem_entry};
use super::mapper::team_glob_mapper::glob_entries_of;
use super::mapper::team_yml_mapper::team_yml_entry;
use super::{entry_row, Entry, EntryView};

verus! {

/// The lines that open the file.
pub open spec fn disclaimer_spec() -> Seq<Seq<char>> {
    seq![
        "# STOP! - DO NOT EDIT THIS FILE MANUALLY"@,
        "# This file was automatically generated by \"bin/codeownership validate\"."@,
        "#"@,
        "# CODEOWNERS is used for GitHub to suggest code/file owners to various GitHub"@,
        "# teams. This is useful when developers create Pull Requests since the"@,
        "# code/file owner is notified. Reference GitHub docs for more details:"@,
        "# https://help.github.com/en/articles/about-code-owners"@,
        ""@,
        ""@,
    ]
}

/// A section: its heading, its distinct lines in increasing order, and an
/// empty line.
pub open spec fn section_spec(name: Seq<char>, entries: Seq<EntryView>) -> Seq<Seq<char>> {
    seq!["# "@ + name] + sorted_set(entries.map_values(|e: EntryView| entry_row(e))) + seq![""@]
}

/// The sections of the file, in their order.
pub open spec fn sections_spec(p: ProjectView) -> Seq<Seq<char>> {
    section_spec("Annotations at the top of file"@, team_file_entries_spec(p)) + section_spec(
        "Team-specific owned globs"@,
        team_glob_entries_spec(p),
    ) + section_spec(
        "Owner metadata key in package.yml"@,
        package_entries_spec(p, PackageType::Ruby),
    ) + section_spec(
        "Owner metadata key in package.json"@,
        package_entries_spec(p, PackageType::Javascript),
    ) + section_spec("Team YML ownership"@, team_yml_entries_spec(p)) + section_spec(
        "Team owned gems"@,
        team_gem_entries_spec(p),
    ) + section_spec("Owner in .codeowner"@, directory_entries_spec(p))
}

/// The whole CODEOWNERS file of a project.
pub open spec fn generated_file_spec(p: ProjectView) -> Seq<char> {
    join_spec(disclaimer_spec() + sections_spec(p), "\n"@)
}

pub struct FileGenerator<'a> {
    project: &'a Project,
}

/// Appends `more` to `lines`.
fn push_all(lines: &mut Vec<String>, more: Vec<String>)
    ensures
        final(lines)@.map_values(|s: String| s@) == old(lines)@.map_values(|s: String| s@)
            + more@.map_values(|s: String| s@),
{
    let ghost start = lines@.map_values(|s: String| s@);
    let ghost mv = more@.map_values(|s: String| s@);
    let mut i: usize = 0;
    while i < more.len()
        invariant
            i <= more.len(),
            mv == more@.map_values(|s: String| s@),
            lines@.map_values(|s: String| s@) == start + mv.take(i as int),
        decreases more.len() - i,
    {
        let ghost before = lines@;
        lines.push(more[i].clone());
        assert(lines@.map_values(|s: String| s@) =~= before.map_values(|s: String| s@).push(
            mv[i as int],
        ));
        assert(mv.take(i + 1) =~= mv.take(i as int).push(mv[i as int]));
        i = i + 1;
    }
    assert(mv.take(more.len() as int) =~= mv);
}

/// The lines of one section.
fn section_lines(name: String, entries: Vec<Entry>) -> (r: Vec<String>)
    ensures
        r@.map_values(|s: String| s@) == section_spec(
            name@,
            entries@.map_values(|e: Entry| e@),
        ),
{
    let ghost ev = entries@.map_values(|e: Entry| e@);
    let mut rows: Vec<String> = Vec::new();
    let mut i: usize = 0;
    while i < entries.len()
        invariant
            i <= entries.len(),
            ev == entries@.map_values(|e: Entry| e@),
            rows@.map_values(|s: String| s@) == ev.take(i as int).map_values(
                |e: EntryView| entry_row(e),
            ),
        decreases entries.len() - i,
    {
        let ghost before = rows@;
        rows.push(entries[i].to_row());
        assert(rows@.map_values(|s: String| s@) =~= before.map_values(|s: String| s@).push(
            entry_row(ev[i as int]),
        ));
        assert(ev.take(i + 1).map_values(|e: EntryView| entry_row(e)) =~= ev.take(
            i as int,
        ).map_values(|e: EntryView| entry_row(e)).push(entry_row(ev[i as int])));
        i = i + 1;
    }
    assert(ev.take(entries.len() as int) =~= ev);
    let sorted = sorted_unique(rows);
    let mut lines: Vec<String> = Vec::new();
    lines.push(concat("# ", name.as_str()));
    push_all(&mut lines, sorted);
    let ghost before = lines@;
    lines.push(to_owned_string(""));
    assert(lines@.map_values(|s: String| s@) =~= before.map_values(|s: String| s@).push(""@));
    lines
}

impl<'a> FileGenerator<'a> {
    pub closed spec fn project_view(&self) -> ProjectView {
        self.project@
    }

    pub fn build(project: &'a Project) -> (r: Self)
        ensures
            r.project_view() == project@,
    {
        FileGenerator { project }
    }

    /// The lines that open the file.
    pub fn disclaimer() -> (r: Vec<String>)
        ensures
            r@.map_values(|s: String| s@) == disclaimer_spec(),
    {
        let mut r: Vec<String> = Vec::new();
        r.push(to_owned_string("# STOP! - DO NOT EDIT THIS FILE MANUALLY"));
        r.push(
            to_owned_string(
                "# This file was automatically generated by \"bin/codeownership validate\".",
            ),
        );
        r.push(to_owned_string("#"));
        r.push(
            to_owned_string(
                "# CODEOWNERS is used for GitHub to suggest code/file owners to various GitHub",
            ),
        );
        r.push(
            to_owned_string("# teams. This is useful when developers create Pull Requests since the"),
        );
        r.push(
            to_owned_string("# code/file owner is notified. Reference GitHub docs for more details:"),
        );
        r.push(to_owned_string("# https://help.github.com/en/articles/about-code-owners"));
        r.push(to_owned_string(""));
        r.push(to_owned_string(""));
        assert(r@.map_values(|s: String| s@) =~= disclaimer_spec());
        r
    }

    /// The text of the CODEOWNERS file.
    pub fn generate_file(&self) -> (r: String)
        requires
            project_wf(self.project_view()),
        ensures
            r@ == generated_file_spec(self.project_view()),
    {
        let project = self.project;
        let ghost p = project@;
        let mut lines = Self::disclaimer();
        let m1 = TeamFileMapper::build(project);
        push_all(&mut lines, section_lines(m1.name(), m1.entries()));
        let m2 = TeamGlobMapper::build(project);
        push_all(&mut lines, section_lines(m2.name(), m2.entries()));
        let m3 = RubyPackageMapper::build(project);
        push_all(&mut lines, section_lines(m3.name(), m3.entries()));
        let m4 = JavascriptPackageMapper::build(project);
        push_all(&mut lines, section_lines(m4.name(), m4.entries()));
        let m5 = TeamYmlMapper::build(project);
        push_all(&mut lines, section_lines(m5.name(), m5.entries()));
        let m6 = TeamGemMapper::build(project);
        push_all(&mut lines, section_lines(m6.name(), m6.entries()));
        let m7 = DirectoryMapper::build(project);
        push_all(&mut lines, section_lines(m7.name(), m7.entries()));
        assert(lines@.map_values(|s: String| s@) =~= disclaimer_spec() + sections_spec(p));
        join(&lines, "\n")
    }
}

/// The entry was made for team `t`: it names the team and its GitHub team,
/// and it is commented out exactly when the team asks not to be added.
pub open spec fn entry_for_team(e: EntryView, t: TeamView) -> bool {
    &&& e.github_team == t.github_team
    &&& e.team_name == t.name
    &&& e.disabled == t.avoid_ownership
}

/// Every entry of `es` was made for one of the teams `ts`.
pub open spec fn entries_for_teams(es: Seq<EntryView>, ts: Seq<TeamView>) -> bool {
    forall|i: int|
        0 <= i < es.len() ==> exists|k: int| 0 <= k < ts.len() && entry_for_team(#[trigger] es[i], ts[k])
}

proof fn lemma_map_of_value<V>(es: Seq<(Seq<char>, V)>, key: Seq<char>)
    requires
        map_of(es).contains_key(key),
    ensures
        exists|i: int| 0 <= i < es.len() && (#[trigger] es[i]).1 == map_of(es)[key],
    decreases es.len(),
{
    if es.len() > 0 {
        if es.last().0 == key {
            assert(es[es.len() - 1].1 == map_of(es)[key]);
        } else {
            lemma_map_of_value(es.drop_last(), key);
            let i = choose|i: int| 0 <= i < es.drop_last().len() && (#[trigger] es.drop_last()[i]).1 == map_of(
                es.drop_last(),
            )[key];
            assert(es[i] == es.drop_last()[i]);
        }
    }
}

/// A team found by its name is one of the teams.
proof fn lemma_team_by_name_is_a_team(ts: Seq<TeamView>, key: Seq<char>)
    requires
        teams_by_name_spec(ts).contains_key(key),
    ensures
        exists|k: int| 0 <= k < ts.len() && ts[k] == teams_by_name_spec(ts)[key],
{
    let es = ts.map_values(|t: TeamView| (t.name, t));
    lemma_map_of_value(es, key);
    let i = choose|i: int| 0 <= i < es.len() && (#[trigger] es[i]).1 == map_of(es)[key];
    assert(es[i].1 == ts[i]);
}

/// A team found by its name or GitHub team is one of the teams.
pub proof fn lemma_team_by_any_name_is_a_team(ts: Seq<TeamView>, key: Seq<char>)
    requires
        teams_by_any_name_spec(ts).contains_key(key),
    ensures
        exists|k: int| 0 <= k < ts.len() && ts[k] == teams_by_any_name_spec(ts)[key],
{
    let pairs = ts.map_values(|t: TeamView| seq![(t.name, t), (t.github_team, t)]);
    let es = team_keys(ts);
    assert(es == pairs.flatten_alt());
    lemma_map_of_value(es, key);
    let i = choose|i: int| 0 <= i < es.len() && (#[trigger] es[i]).1 == map_of(es)[key];
    lemma_flatten_alt_elem(pairs, i);
    let (k, j) = choose|k: int, j: int|
        0 <= k < pairs.len() && 0 <= j < pairs[k].len() && #[trigger] pairs[k][j] == es[i];
    assert(pairs[k] == seq![(ts[k].name, ts[k]), (ts[k].github_team, ts[k])]);
    assert(es[i].1 == ts[k]);
}

/// Every line of every section of the generated file was made for one of
/// the project's teams, and is commented out exactly when that team asks not
/// to be added to the CODEOWNERS file.
pub proof fn lemma_entries_made_for_teams(p: ProjectView)
    ensures
        entries_for_teams(team_file_entries_spec(p), p.teams),
        entries_for_teams(team_glob_entries_spec(p), p.teams),
        entries_for_teams(package_entries_spec(p, PackageType::Ruby), p.teams),
        entries_for_teams(package_entries_spec(p, PackageType::Javascript), p.teams),
        entries_for_teams(team_yml_entries_spec(p), p.teams),
        entries_for_teams(team_gem_entries_spec(p), p.teams),
        entries_for_teams(directory_entries_spec(p), p.teams),
{
    let ts = p.teams;
    let by_name = teams_by_name_spec(ts);
    let by_any = teams_by_any_name_spec(ts);
    // Annotated files.
    let es = team_file_entries_spec(p);
    let f1 = |f: ProjectFileView| annotated_entry(p, by_name, f);
    assert(es == p.files.filter_map(f1));
    assert forall|i: int| 0 <= i < es.len() implies exists|k: int|
        0 <= k < ts.len() && entry_for_team(#[trigger] es[i], ts[k]) by {
        assert(es.contains(es[i]));
        p.files.lemma_filter_map_contains(f1, es[i]);
        let f = choose|f: ProjectFileView| #[trigger] p.files.contains(f) && f1(f) == Some(es[i]);
        lemma_team_by_name_is_a_team(ts, f.owner.unwrap());
    }
    // Team globs.
    let es = team_glob_entries_spec(p);
    let gs = ts.map_values(|t: TeamView| glob_entries_of(t));
    assert(es == gs.flatten_alt());
    assert forall|i: int| 0 <= i < es.len() implies exists|k: int|
        0 <= k < ts.len() && entry_for_team(#[trigger] es[i], ts[k]) by {
        lemma_flatten_alt_elem(gs, i);
        let (k, j) = choose|k: int, j: int|
            0 <= k < gs.len() && 0 <= j < gs[k].len() && #[trigger] gs[k][j] == es[i];
        assert(gs[k] == glob_entries_of(ts[k]));
        assert(entry_for_team(gs[k][j], ts[k]));
    }
    // Packages.
    let es = package_entries_spec(p, PackageType::Ruby);
    let f3 = |pk: PackageView| package_entry(by_any, PackageType::Ruby, pk);
    assert(es == p.packages.filter_map(f3));
    assert forall|i: int| 0 <= i < es.len() implies exists|k: int|
        0 <= k < ts.len() && entry_for_team(#[trigger] es[i], ts[k]) by {
        assert(es.contains(es[i]));
        p.packages.lemma_filter_map_contains(f3, es[i]);
        let pk = choose|pk: PackageView| #[trigger] p.packages.contains(pk) && f3(pk) == Some(es[i]);
        lemma_team_by_any_name_is_a_team(ts, pk.owner);
    }
    let es = package_entries_spec(p, PackageType::Javascript);
    let f4 = |pk: PackageView| package_entry(by_any, PackageType::Javascript, pk);
    assert(es == p.packages.filter_map(f4));
    assert forall|i: int| 0 <= i < es.len() implies exists|k: int|
        0 <= k < ts.len() && entry_for_team(#[trigger] es[i], ts[k]) by {
        assert(es.contains(es[i]));
        p.packages.lemma_filter_map_contains(f4, es[i]);
        let pk = choose|pk: PackageView| #[trigger] p.packages.contains(pk) && f4(pk) == Some(es[i]);
        lemma_team_by_any_name_is_a_team(ts, pk.owner);
    }
    // Team files.
    let es = team_yml_entries_spec(p);
    assert forall|i: int| 0 <= i < es.len() implies exists|k: int|
        0 <= k < ts.len() && entry_for_team(#[trigger] es[i], ts[k]) by {
        assert(es[i] == team_yml_entry(p, ts[i]));
        assert(entry_for_team(es[i], ts[i]));
    }
    // Vendored gems.
    let es = team_gem_entries_spec(p);
    let gs = ts.map_values(|t: TeamView| gem_entries_of(p, t));
    assert(es == gs.flatten_alt());
    assert forall|i: int| 0 <= i < es.len() implies exists|k: int|
        0 <= k < ts.len() && entry_for_team(#[trigger] es[i], ts[k]) by {
        lemma_flatten_alt_elem(gs, i);
        let (k, j) = choose|k: int, j: int|
            0 <= k < gs.len() && 0 <= j < gs[k].len() && #[trigger] gs[k][j] == es[i];
        let t = ts[k];
        let fg = |gem: Seq<char>| gem_entry(p, gems_by_name_spec(p.vendored_gems), t, gem);
        assert(gs[k] == t.owned_gems.filter_map(fg));
        assert(gs[k].contains(gs[k][j]));
        t.owned_gems.lemma_filter_map_contains(fg, gs[k][j]);
        assert(entry_for_team(gs[k][j], t));
    }
    // Directories.
    let es = directory_entries_spec(p);
    let f7 = |d: DirectoryCodeownersFileView| directory_entry(by_name, d);
    assert(es == p.directory_codeowner_files.filter_map(f7));
    assert forall|i: int| 0 <= i < es.len() implies exists|k: int|
        0 <= k < ts.len() && entry_for_team(#[trigger] es[i], ts[k]) by {
        assert(es.contains(es[i]));
        p.directory_codeowner_files.lemma_filter_map_contains(f7, es[i]);
        let d = choose|d: DirectoryCodeownersFileView| #[trigger] p.directory_codeowner_files.contains(d)
            && f7(d) == Some(es[i]);
        lemma_team_by_name_is_a_team(ts, d.owner);
    }
}

/// A commented-out entry's line starts with `# `; any other entry's line
/// starts with `/`.
pub proof fn lemma_disabled_rows_commented_out(e: EntryView)
    ensures
        e.disabled ==> is_prefix(seq!['#', ' '], entry_row(e)),
        !e.disabled ==> is_prefix(seq!['/'], entry_row(e)),
{
    reveal_strlit("# ");
    reveal_strlit("/");
    reveal_strlit(" ");
    let line = "/"@ + e.path + " "@ + e.github_team;
    assert(line[0] == '/');
    if e.disabled {
        assert(entry_row(e).take(2) =~= seq!['#', ' ']);
    } else {
        assert(entry_row(e).take(1) =~= seq!['/']);
    }
}

pub proof fn lemma_flatten_alt_has<A>(s: Seq<Seq<A>>, k: int, j: int)
    requires
        0 <= k < s.len(),
        0 <= j < s[k].len(),
    ensures
        exists|i: int| 0 <= i < s.flatten_alt().len() && #[trigger] s.flatten_alt()[i] == s[k][j],
    decreases s.len(),
{
    let init = s.drop_last();
    let f = init.flatten_alt();
    assert(s.flatten_alt() == f + s.last());
    if k < s.len() - 1 {
        assert(init[k] == s[k]);
        lemma_flatten_alt_has(init, k, j);
        let i = choose|i: int| 0 <= i < f.len() && #[trigger] f[i] == init[k][j];
        assert(s.flatten_alt()[i] == f[i]);
    } else {
        assert(s.flatten_alt()[f.len() + j] == s.last()[j]);
    }
}

/// Every glob that a team owns gives a line of the team-specific section,
/// made for that team: commented out exactly when the team asks not to be
/// added.
pub proof fn lemma_team_glob_has_entry(p: ProjectView, k: int, j: int)
    requires
        0 <= k < p.teams.len(),
        0 <= j < p.teams[k].owned_globs.len(),
    ensures
        exists|i: int|
            0 <= i < team_glob_entries_spec(p).len() && #[trigger] team_glob_entries_spec(p)[i] == (EntryView {
                path: p.teams[k].owned_globs[j],
                github_team: p.teams[k].github_team,
                team_name: p.teams[k].name,
                disabled: p.teams[k].avoid_ownership,
            }),
{
    let gs = p.teams.map_values(|t: TeamView| glob_entries_of(t));
    assert(team_glob_entries_spec(p) == gs.flatten_alt());
    assert(gs[k] == glob_entries_of(p.teams[k]));
    let e = EntryView {
        path: p.teams[k].owned_globs[j],
        github_team: p.teams[k].github_team,
        team_name: p.teams[k].name,
        disabled: p.teams[k].avoid_ownership,
    };
    assert(gs[k][j] == e);
    lemma_flatten_alt_has(gs, k, j);
    let i = choose|i: int| 0 <= i < gs.flatten_alt().len() && #[trigger] gs.flatten_alt()[i] == gs[k][j];
    assert(team_glob_entries_spec(p)[i] == e);
}

} // verus!
