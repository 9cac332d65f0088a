//! The owners of one file, found from what the file system shows around it
//! (its first line, the directories above it, the team files) without
//! building the whole project.
use vstd::prelude::*;

use crate::config::{Config, ConfigView};
use crate::globs::{any_glob_matches, glob_list_matches, glob_match, spec_glob_match};
use crate::path::{components, is_absolute, join_path, join_path_spec, path_components, path_eq, path_eq_spec, root_component};
use crate::path_utils::{relative_to, relative_to_spec};
use crate::project::{
    opt_view, team_keys, teams_by_any_name_spec, Team, TeamView,
};
use crate::project::deserializers::{JavascriptPackage, RubyPackage};
use crate::project_file_builder::{first_line_team_spec, team_from_first_line};
use crate::sort::{
    lemma_stable_sorted_is_sorted, lemma_stable_sorted_map, sort_by, stable_sorted, total_preorder,
};
use crate::strmap::StrMap;
use crate::text::{
    concat, lemma_text_lt_total, lemma_text_lt_trans, str_eq, text_le, text_less, text_lt,
    trim, trim_spec, to_owned_string,
};

use super::file_owner_finder::{
    add_contribution, add_source, copy_sources, group_owners, lemma_group_owners_sources, Owner, OwnerView,
};
use super::mapper::team_glob_mapper::lemma_flatten_alt_push;
use super::mapper::{Source, SourceView};
use super::{FileOwner, FileOwnerView};

verus! {

/// What the file system shows of one directory above a file.
pub struct DirectoryFacts {
    /// The directory, as a path that begins with the project's root.
    pub dir: String,
    /// The text of the directory's `.codeowner` file, when it could be read.
    pub codeowner: Option<String>,
    /// The directory's `package.yml`, when there is one that could be read.
    pub ruby_package: Option<RubyPackage>,
    /// The directory's `package.json`, when there is one that could be read.
    pub javascript_package: Option<JavascriptPackage>,
}

pub struct DirectoryFactsView {
    pub dir: Seq<char>,
    pub codeowner: Option<Seq<char>>,
    pub ruby_owner: Option<Seq<char>>,
    pub javascript_owner: Option<Seq<char>>,
}

impl View for DirectoryFacts {
    type V = DirectoryFactsView;

    /// The owner of a ruby package is its top-level `owner`; that of a
    /// javascript package is `metadata.owner`.
    open spec fn view(&self) -> DirectoryFactsView {
        DirectoryFactsView {
            dir: self.dir@,
            codeowner: opt_view(self.codeowner),
            ruby_owner: match self.ruby_package {
                Some(p) => opt_view(p.owner),
                None => None,
            },
            javascript_owner: match self.javascript_package {
                Some(p) => match p.metadata {
                    Some(m) => opt_view(m.owner),
                    None => None,
                },
                None => None,
            },
        }
    }
}

pub open spec fn opt_seq<A>(o: Option<A>) -> Seq<A> {
    match o {
        Some(a) => seq![a],
        None => Seq::empty(),
    }
}

/// The owner that a directory's `.codeowner` file names, when it names a
/// team.
pub open spec fn dir_candidate(
    root: Seq<char>,
    teams: Map<Seq<char>, TeamView>,
    d: DirectoryFactsView,
) -> Option<(Seq<char>, SourceView)> {
    match d.codeowner {
        Some(text) => if teams.contains_key(trim_spec(text)) {
            Some(
                (
                    teams[trim_spec(text)].name,
                    SourceView::Directory(relative_to_spec(root, d.dir)),
                ),
            )
        } else {
            None
        },
        None => None,
    }
}

/// Of the directories' owners, the first with the deepest directory.
pub open spec fn best_directory_owner(
    root: Seq<char>,
    teams: Map<Seq<char>, TeamView>,
    ds: Seq<DirectoryFactsView>,
) -> Option<(Seq<char>, SourceView)>
    decreases ds.len(),
{
    if ds.len() == 0 {
        None
    } else {
        let best = best_directory_owner(root, teams, ds.drop_last());
        match dir_candidate(root, teams, ds.last()) {
            Some(c) => if best is None || crate::ownership::mapper::source_len(best.unwrap().1)
                < crate::ownership::mapper::source_len(c.1) {
                Some(c)
            } else {
                best
            },
            None => best,
        }
    }
}

/// The owner given by the `.codeowner` file of the deepest directory above
/// the file.
pub fn most_specific_directory_owner(
    project_root: &str,
    dirs: &Vec<DirectoryFacts>,
    teams_by_name: &StrMap<Team>,
) -> (r: Option<(String, Source)>)
    ensures
        match r {
            Some((t, s)) => best_directory_owner(
                project_root@,
                teams_by_name@,
                dirs@.map_values(|d: DirectoryFacts| d@),
            ) == Some((t@, s@)),
            None => best_directory_owner(
                project_root@,
                teams_by_name@,
                dirs@.map_values(|d: DirectoryFacts| d@),
            ) is None,
        },
{
    let ghost ds = dirs@.map_values(|d: DirectoryFacts| d@);
    let mut best: Option<(String, Source)> = None;
    let mut i: usize = 0;
    while i < dirs.len()
        invariant
            i <= dirs.len(),
            ds == dirs@.map_values(|d: DirectoryFacts| d@),
            match best {
                Some((t, s)) => best_directory_owner(project_root@, teams_by_name@, ds.take(i as int))
                    == Some((t@, s@)),
                None => best_directory_owner(project_root@, teams_by_name@, ds.take(i as int)) is None,
            },
        decreases dirs.len() - i,
    {
        let d = &dirs[i];
        assert(ds[i as int] == d@);
        assert(ds.take(i + 1).drop_last() =~= ds.take(i as int));
        assert(ds.take(i + 1).last() == d@);
        if let Some(text) = &d.codeowner {
            let owner = trim(text.as_str());
            if let Some(team) = teams_by_name.get(owner.as_str()) {
                let candidate = (team.name.clone(), Source::Directory(relative_to(project_root, d.dir.as_str())));
                let take = match &best {
                    None => true,
                    Some((_, existing)) => existing.len() < candidate.1.len(),
                };
                if take {
                    best = Some(candidate);
                }
            }
        }
        i = i + 1;
    }
    assert(ds.take(dirs.len() as int) =~= ds);
    best
}

/// A package of a directory, when the directory is one where such packages
/// are looked for and the package names a team.
pub open spec fn package_candidate(
    rel: Seq<char>,
    globs: Seq<Seq<char>>,
    owner: Option<Seq<char>>,
    teams: Map<Seq<char>, TeamView>,
    file_name: Seq<char>,
) -> Option<(Seq<char>, SourceView)> {
    if any_glob_matches(globs, rel) && owner is Some && teams.contains_key(owner.unwrap()) {
        Some(
            (
                teams[owner.unwrap()].name,
                SourceView::Package(join_path_spec(rel, file_name), rel + "/**/**"@),
            ),
        )
    } else {
        None
    }
}

/// The package owner of one directory: its ruby package first, then its
/// javascript package.
pub open spec fn dir_package_owner(
    root: Seq<char>,
    config: ConfigView,
    teams: Map<Seq<char>, TeamView>,
    d: DirectoryFactsView,
) -> Option<(Seq<char>, SourceView)> {
    let rel = relative_to_spec(root, d.dir);
    match package_candidate(rel, config.ruby_package_paths, d.ruby_owner, teams, "package.yml"@) {
        Some(c) => Some(c),
        None => package_candidate(
            rel,
            config.javascript_package_paths,
            d.javascript_owner,
            teams,
            "package.json"@,
        ),
    }
}

/// The package owner of the nearest directory that has one.
pub open spec fn nearest_package_spec(
    root: Seq<char>,
    config: ConfigView,
    teams: Map<Seq<char>, TeamView>,
    ds: Seq<DirectoryFactsView>,
) -> Option<(Seq<char>, SourceView)>
    decreases ds.len(),
{
    if ds.len() == 0 {
        None
    } else {
        match dir_package_owner(root, config, teams, ds[0]) {
            Some(c) => Some(c),
            None => nearest_package_spec(root, config, teams, ds.drop_first()),
        }
    }
}

fn package_owner_in(
    rel: &String,
    globs: &Vec<String>,
    owner: &Option<String>,
    teams_by_name: &StrMap<Team>,
    file_name: &str,
) -> (r: Option<(String, Source)>)
    ensures
        match r {
            Some((t, s)) => package_candidate(
                rel@,
                globs@.map_values(|g: String| g@),
                opt_view(*owner),
                teams_by_name@,
                file_name@,
            ) == Some((t@, s@)),
            None => package_candidate(
                rel@,
                globs@.map_values(|g: String| g@),
                opt_view(*owner),
                teams_by_name@,
                file_name@,
            ) is None,
        },
{
    if !glob_list_matches(rel.as_str(), globs) {
        return None;
    }
    match owner {
        Some(o) => match teams_by_name.get(o.as_str()) {
            Some(team) => {
                let package_path = join_path(rel.as_str(), file_name);
                let package_glob = concat(rel.as_str(), "/**/**");
                Some((team.name.clone(), Source::Package(package_path, package_glob)))
            },
            None => None,
        },
        None => None,
    }
}

/// The owner given by the package of the nearest directory that has one.
pub fn nearest_package_owner(
    project_root: &str,
    dirs: &Vec<DirectoryFacts>,
    config: &Config,
    teams_by_name: &StrMap<Team>,
) -> (r: Option<(String, Source)>)
    ensures
        match r {
            Some((t, s)) => nearest_package_spec(
                project_root@,
                config@,
                teams_by_name@,
                dirs@.map_values(|d: DirectoryFacts| d@),
            ) == Some((t@, s@)),
            None => nearest_package_spec(
                project_root@,
                config@,
                teams_by_name@,
                dirs@.map_values(|d: DirectoryFacts| d@),
            ) is None,
        },
{
    let ghost ds = dirs@.map_values(|d: DirectoryFacts| d@);
    let mut i: usize = 0;
    assert(ds.skip(0) =~= ds);
    while i < dirs.len()
        invariant
            i <= dirs.len(),
            ds == dirs@.map_values(|d: DirectoryFacts| d@),
            nearest_package_spec(project_root@, config@, teams_by_name@, ds)
                == nearest_package_spec(project_root@, config@, teams_by_name@, ds.skip(i as int)),
        decreases dirs.len() - i,
    {
        let d = &dirs[i];
        assert(ds.skip(i as int)[0] == d@);
        assert(ds.skip(i as int).drop_first() =~= ds.skip(i + 1));
        let rel = relative_to(project_root, d.dir.as_str());
        let ruby_owner = match &d.ruby_package {
            Some(p) => p.owner.clone(),
            None => None,
        };
        if let Some(found) = package_owner_in(
            &rel,
            &config.ruby_package_paths,
            &ruby_owner,
            teams_by_name,
            "package.yml",
        ) {
            return Some(found);
        }
        let javascript_owner = match &d.javascript_package {
            Some(p) => match &p.metadata {
                Some(m) => m.owner.clone(),
                None => None,
            },
            None => None,
        };
        if let Some(found) = package_owner_in(
            &rel,
            &config.javascript_package_paths,
            &javascript_owner,
            teams_by_name,
            "package.json",
        ) {
            return Some(found);
        }
        i = i + 1;
    }
    assert(ds.skip(dirs.len() as int) =~= Seq::<DirectoryFactsView>::empty());
    None
}

/// A component that names a file or directory: not the root, `.` or `..`.
pub open spec fn is_normal_component(c: Seq<char>) -> bool {
    c != root_component() && c != "."@ && c != ".."@
}

/// The first team that owns the gem.
pub open spec fn first_team_with_gem(teams: Seq<TeamView>, gem: Seq<char>) -> Option<Seq<char>>
    decreases teams.len(),
{
    if teams.len() == 0 {
        None
    } else if teams[0].owned_gems.contains(gem) {
        Some(teams[0].name)
    } else {
        first_team_with_gem(teams.drop_first(), gem)
    }
}

/// The owner of a file inside a vendored gem: the first team that owns the
/// gem named by the second component, when the first is the vendored gems
/// path.
pub open spec fn vendored_gem_owner_spec(
    rel: Seq<char>,
    vendored_gems_path: Seq<char>,
    teams: Seq<TeamView>,
) -> Option<(Seq<char>, SourceView)> {
    let c = components(rel);
    if c.len() >= 2 && is_normal_component(c[0]) && c[0] == vendored_gems_path
        && is_normal_component(c[1]) {
        match first_team_with_gem(teams, c[1]) {
            Some(n) => Some((n, SourceView::TeamGem)),
            None => None,
        }
    } else {
        None
    }
}

fn is_normal(c: &Vec<char>) -> (r: bool)
    ensures
        r == is_normal_component(c@),
{
    proof {
        reveal_strlit(".");
        reveal_strlit("..");
        assert("."@ =~= seq!['.']);
        assert(".."@ =~= seq!['.', '.']);
    }
    if c.len() == 1 && (c[0] == '/' || c[0] == '.') {
        assert(c@ =~= seq![c[0]]);
        false
    } else if c.len() == 2 && c[0] == '.' && c[1] == '.' {
        assert(c@ =~= seq!['.', '.']);
        false
    } else {
        assert(c@ != root_component()) by {
            if c@ == root_component() {
                assert(c@[0] == '/');
            }
        }
        assert(c@ != "."@) by {
            if c@ == "."@ {
                assert(c@[0] == '.');
            }
        }
        assert(c@ != ".."@) by {
            if c@ == ".."@ {
                assert(c@[0] == '.' && c@[1] == '.');
            }
        }
        true
    }
}

fn team_owns_gem(team: &Team, gem: &str) -> (r: bool)
    ensures
        r == team@.owned_gems.contains(gem@),
{
    let mut i: usize = 0;
    while i < team.owned_gems.len()
        invariant
            i <= team.owned_gems.len(),
            forall|j: int| 0 <= j < i ==> team@.owned_gems[j] != gem@,
        decreases team.owned_gems.len() - i,
    {
        if str_eq(team.owned_gems[i].as_str(), gem) {
            assert(team@.owned_gems[i as int] == gem@);
            return true;
        }
        i = i + 1;
    }
    false
}

/// The owner of a file inside a vendored gem.
pub fn vendored_gem_owner(relative_file_path: &str, config: &Config, teams: &Vec<Team>) -> (r: Option<
    (String, Source),
>)
    ensures
        match r {
            Some((t, s)) => vendored_gem_owner_spec(
                relative_file_path@,
                config.vendored_gems_path@,
                teams@.map_values(|t: Team| t@),
            ) == Some((t@, s@)),
            None => vendored_gem_owner_spec(
                relative_file_path@,
                config.vendored_gems_path@,
                teams@.map_values(|t: Team| t@),
            ) is None,
        },
{
    let comps = path_components(relative_file_path);
    let ghost cv = comps@.map_values(|x: Vec<char>| x@);
    if comps.len() < 2 {
        return None;
    }
    assert(cv[0] == comps@[0]@ && cv[1] == comps@[1]@);
    if !is_normal(&comps[0]) {
        return None;
    }
    let first = crate::text::string_of(&comps[0]);
    if !str_eq(first.as_str(), config.vendored_gems_path.as_str()) {
        return None;
    }
    if !is_normal(&comps[1]) {
        return None;
    }
    let gem_name = crate::text::string_of(&comps[1]);
    let ghost tv = teams@.map_values(|t: Team| t@);
    let ghost answer = vendored_gem_owner_spec(
        relative_file_path@,
        config.vendored_gems_path@,
        tv,
    );
    assert(answer == match first_team_with_gem(tv, gem_name@) {
        Some(n) => Some((n, SourceView::TeamGem)),
        None => None,
    });
    let mut i: usize = 0;
    assert(tv.skip(0) =~= tv);
    while i < teams.len()
        invariant
            i <= teams.len(),
            tv == teams@.map_values(|t: Team| t@),
            answer == vendored_gem_owner_spec(relative_file_path@, config.vendored_gems_path@, tv),
            answer == match first_team_with_gem(tv, gem_name@) {
                Some(n) => Some((n, SourceView::TeamGem)),
                None => None,
            },
            first_team_with_gem(tv, gem_name@) == first_team_with_gem(tv.skip(i as int), gem_name@),
        decreases teams.len() - i,
    {
        assert(tv.skip(i as int)[0] == teams@[i as int]@);
        assert(tv.skip(i as int).drop_first() =~= tv.skip(i + 1));
        if team_owns_gem(&teams[i], gem_name.as_str()) {
            return Some((teams[i].name.clone(), Source::TeamGem));
        }
        i = i + 1;
    }
    assert(tv.skip(teams.len() as int) =~= Seq::<TeamView>::empty());
    None
}

/// How much an owner's source is trusted: the lower, the more.
pub open spec fn source_priority_spec(s: SourceView) -> nat {
    match s {
        SourceView::AnnotatedFile => 0,
        SourceView::Directory(_) => 1,
        SourceView::Package(_, _) => 2,
        SourceView::TeamGlob(_) => 3,
        SourceView::TeamGem => 4,
        SourceView::TeamYml => 5,
    }
}

/// How much an owner's source is trusted: the lower, the more.
pub fn source_priority(source: &Source) -> (r: u8)
    ensures
        r == source_priority_spec(source@),
{
    match source {
        Source::AnnotatedFile => 0,
        Source::Directory(_) => 1,
        Source::Package(_, _) => 2,
        Source::TeamGlob(_) => 3,
        Source::TeamGem => 4,
        Source::TeamYml => 5,
    }
}

/// The most trusted priority among the sources; 255 when there is none.
pub open spec fn min_priority(sources: Seq<SourceView>) -> nat
    decreases sources.len(),
{
    if sources.len() == 0 {
        255
    } else {
        let rest = min_priority(sources.drop_last());
        let p = source_priority_spec(sources.last());
        if p < rest {
            p
        } else {
            rest
        }
    }
}

fn min_source_priority(sources: &Vec<Source>) -> (r: u8)
    ensures
        r == min_priority(sources@.map_values(|s: Source| s@)),
{
    let ghost sv = sources@.map_values(|s: Source| s@);
    let mut best: u8 = 255;
    let mut i: usize = 0;
    while i < sources.len()
        invariant
            i <= sources.len(),
            sv == sources@.map_values(|s: Source| s@),
            best == min_priority(sv.take(i as int)),
        decreases sources.len() - i,
    {
        assert(sv.take(i + 1).drop_last() =~= sv.take(i as int));
        assert(sv.take(i + 1).last() == sources@[i as int]@);
        let p = source_priority(&sources[i]);
        if p < best {
            best = p;
        }
        i = i + 1;
    }
    assert(sv.take(sources.len() as int) =~= sv);
    best
}

/// Owners ordered by their most trusted source, then by team name.
pub open spec fn fast_owner_le(a: FileOwnerView, b: FileOwnerView) -> bool {
    min_priority(a.sources) < min_priority(b.sources) || (min_priority(a.sources) == min_priority(
        b.sources,
    ) && text_le(a.team.name, b.team.name))
}

/// The owner found by the file's top-of-file annotation, when the file is
/// one that the configuration owns and the annotation names a team.
pub open spec fn annotation_contribution(
    config: ConfigView,
    teams: Map<Seq<char>, TeamView>,
    rel: Seq<char>,
    top: Option<Seq<char>>,
) -> Option<(Seq<char>, SourceView)> {
    match top {
        Some(t) => if any_glob_matches(config.owned_globs, rel) && !any_glob_matches(
            config.unowned_globs,
            rel,
        ) && teams.contains_key(t) {
            Some((teams[t].name, SourceView::AnnotatedFile))
        } else {
            None
        },
        None => None,
    }
}

/// The globs of a team that give it the file.
pub open spec fn team_glob_contributions(t: TeamView, rel: Seq<char>) -> Seq<(Seq<char>, SourceView)> {
    t.owned_globs.filter(
        |g: Seq<char>| spec_glob_match(g, rel) && !any_glob_matches(t.subtracted_globs, rel),
    ).map_values(|g: Seq<char>| (t.name, SourceView::TeamGlob(g)))
}

/// The teams whose configuration file is the file.
pub open spec fn team_yml_contributions(root: Seq<char>, teams: Seq<TeamView>, rel: Seq<char>) -> Seq<
    (Seq<char>, SourceView),
> {
    teams.filter(|t: TeamView| path_eq_spec(relative_to_spec(root, t.path), rel)).map_values(
        |t: TeamView| (t.name, SourceView::TeamYml),
    )
}

/// The path of the file as given, or joined to the root when relative.
pub open spec fn absolute_file_path_spec(root: Seq<char>, file_path: Seq<char>) -> Seq<char> {
    if is_absolute(file_path) {
        file_path
    } else {
        join_path_spec(root, file_path)
    }
}

/// Every (team, source) pair that gives the file an owner, in order: the
/// annotation, the directory, the package, the vendored gem, the team
/// globs, the team files.
pub open spec fn fast_contributions(
    root: Seq<char>,
    config: ConfigView,
    file_path: Seq<char>,
    first_line: Option<Seq<char>>,
    ds: Seq<DirectoryFactsView>,
    teams: Seq<TeamView>,
) -> Seq<(Seq<char>, SourceView)> {
    let rel = relative_to_spec(root, absolute_file_path_spec(root, file_path));
    let by_name = teams_by_any_name_spec(teams);
    let top = match first_line {
        Some(l) => first_line_team_spec(l),
        None => None,
    };
    opt_seq(annotation_contribution(config, by_name, rel, top)) + opt_seq(
        best_directory_owner(root, by_name, ds),
    ) + opt_seq(nearest_package_spec(root, config, by_name, ds)) + opt_seq(
        vendored_gem_owner_spec(rel, config.vendored_gems_path, teams),
    ) + teams.map_values(|t: TeamView| team_glob_contributions(t, rel)).flatten_alt()
        + team_yml_contributions(root, teams, rel)
}

/// The reported owner of a group, when its team exists.
pub open spec fn fast_file_owner(
    root: Seq<char>,
    by_name: Map<Seq<char>, TeamView>,
    o: OwnerView,
) -> Option<FileOwnerView> {
    if by_name.contains_key(o.team_name) {
        Some(
            FileOwnerView {
                team: by_name[o.team_name],
                team_config_file_path: relative_to_spec(root, by_name[o.team_name].path),
                sources: o.sources,
            },
        )
    } else {
        None
    }
}

/// The owners of the file, ordered by their most trusted source, then by
/// team name.
pub open spec fn fast_owners_spec(
    root: Seq<char>,
    config: ConfigView,
    file_path: Seq<char>,
    first_line: Option<Seq<char>>,
    ds: Seq<DirectoryFactsView>,
    teams: Seq<TeamView>,
) -> Seq<FileOwnerView> {
    let by_name = teams_by_any_name_spec(teams);
    let owners = group_owners(fast_contributions(root, config, file_path, first_line, ds, teams));
    stable_sorted(
        owners.filter_map(|o: OwnerView| fast_file_owner(root, by_name, o)),
        |a: FileOwnerView, b: FileOwnerView| fast_owner_le(a, b),
    )
}

/// The path of the file as given, or joined to the root when relative.
pub fn absolute_file_path(project_root: &str, file_path: &str) -> (r: String)
    ensures
        r@ == absolute_file_path_spec(project_root@, file_path@),
{
    if crate::text::starts_with(file_path, "/") {
        proof {
            reveal_strlit("/");
            assert("/"@ =~= seq!['/']);
            assert(file_path@.take(1)[0] == file_path@[0]);
        }
        file_path.to_owned()
    } else {
        proof {
            reveal_strlit("/");
            assert("/"@ =~= seq!['/']);
            if is_absolute(file_path@) {
                assert(file_path@.take(1) =~= "/"@);
            }
        }
        join_path(project_root, file_path)
    }
}

/// The teams under their names and their GitHub teams.
pub fn build_teams_by_name_map(teams: &Vec<Team>) -> (r: StrMap<Team>)
    ensures
        r@ == teams_by_any_name_spec(teams@.map_values(|t: Team| t@)),
{
    let ghost tv = teams@.map_values(|t: Team| t@);
    let mut r: StrMap<Team> = StrMap::new();
    let mut i: usize = 0;
    while i < teams.len()
        invariant
            i <= teams.len(),
            tv == teams@.map_values(|t: Team| t@),
            r.pairs() == team_keys(tv.take(i as int)),
        decreases teams.len() - i,
    {
        let t = &teams[i];
        let ghost tt = t@;
        r.insert(t.name.clone(), t.duplicate());
        r.insert(t.github_team.clone(), t.duplicate());
        proof {
            let f = |t: TeamView| seq![(t.name, t), (t.github_team, t)];
            assert(tv.take(i + 1) =~= tv.take(i as int).push(tt));
            assert(tv.take(i + 1).map_values(f) =~= tv.take(i as int).map_values(f).push(f(tt)));
            assert(tv.take(i + 1).map_values(f).drop_last() =~= tv.take(i as int).map_values(f));
            assert(team_keys(tv.take(i + 1)) =~= team_keys(tv.take(i as int)) + f(tt));
        }
        i = i + 1;
    }
    assert(tv.take(teams.len() as int) =~= tv);
    r
}

/// Adds one (team, source) pair to the owners grouped so far.
fn contribute(
    owners: &mut Vec<Owner>,
    Ghost(cs): Ghost<Seq<(Seq<char>, SourceView)>>,
    team: &String,
    source: &Source,
) -> (r: Ghost<Seq<(Seq<char>, SourceView)>>)
    requires
        old(owners)@.map_values(|o: Owner| o@) == group_owners(cs),
    ensures
        r@ == cs.push((team@, source@)),
        final(owners)@.map_values(|o: Owner| o@) == group_owners(r@),
{
    add_source(owners, team, source);
    assert(cs.push((team@, source@)).drop_last() =~= cs);
    Ghost(cs.push((team@, source@)))
}

proof fn lemma_fast_owner_le_total_preorder()
    ensures
        total_preorder(|a: FileOwnerView, b: FileOwnerView| fast_owner_le(a, b)),
{
    let le = |a: FileOwnerView, b: FileOwnerView| fast_owner_le(a, b);
    assert forall|a: FileOwnerView, b: FileOwnerView| #[trigger] le(a, b) || le(b, a) by {
        lemma_text_lt_total(a.team.name, b.team.name);
    }
    assert forall|a: FileOwnerView, b: FileOwnerView, c: FileOwnerView| #[trigger] le(a, b)
        && #[trigger] le(b, c) implies le(a, c) by {
        if text_lt(a.team.name, b.team.name) && text_lt(b.team.name, c.team.name) {
            lemma_text_lt_trans(a.team.name, b.team.name, c.team.name);
        }
    }
}

/// The owners of a file, from what the file system shows around it: the
/// file's first line (`None` when it could not be read), the directories
/// above it from the nearest up to the project's root, and the teams.
/// Owners come ordered by their most trusted source, then by team name.
pub fn find_file_owners(
    project_root: &str,
    config: &Config,
    file_path: &str,
    first_line: &Option<String>,
    dirs: &Vec<DirectoryFacts>,
    teams: &Vec<Team>,
) -> (r: Vec<FileOwner>)
    ensures
        r@.map_values(|o: FileOwner| o@) == fast_owners_spec(
            project_root@,
            config@,
            file_path@,
            opt_view(*first_line),
            dirs@.map_values(|d: DirectoryFacts| d@),
            teams@.map_values(|t: Team| t@),
        ),
{
    let ghost root = project_root@;
    let ghost cv = config@;
    let ghost ds = dirs@.map_values(|d: DirectoryFacts| d@);
    let ghost tv = teams@.map_values(|t: Team| t@);
    let absolute = absolute_file_path(project_root, file_path);
    let rel = relative_to(project_root, absolute.as_str());
    let ghost relv = rel@;
    let by_name = build_teams_by_name_map(teams);
    let ghost bn = by_name@;
    let mut owners: Vec<Owner> = Vec::new();
    let ghost mut cs: Seq<(Seq<char>, SourceView)> = Seq::empty();
    assert(owners@.map_values(|o: Owner| o@) =~= group_owners(cs));
    // The annotation at the top of the file.
    let top = match first_line {
        Some(l) => team_from_first_line(l.as_str()),
        None => None,
    };
    if let Some(t) = &top {
        if glob_list_matches(rel.as_str(), &config.owned_globs) && !glob_list_matches(
            rel.as_str(),
            &config.unowned_globs,
        ) {
            if let Some(team) = by_name.get(t.as_str()) {
                let Ghost(next) = contribute(&mut owners, Ghost(cs), &team.name, &Source::AnnotatedFile);
                proof {
                    cs = next;
                }
            }
        }
    }
    let ghost top_v = match opt_view(*first_line) {
        Some(l) => first_line_team_spec(l),
        None => None,
    };
    assert(cs == opt_seq(annotation_contribution(cv, bn, relv, top_v)));
    // The deepest directory owner.
    if let Some((team_name, source)) = most_specific_directory_owner(project_root, dirs, &by_name) {
        let Ghost(next) = contribute(&mut owners, Ghost(cs), &team_name, &source);
        proof {
            cs = next;
        }
    }
    // The nearest package owner.
    if let Some((team_name, source)) = nearest_package_owner(project_root, dirs, config, &by_name) {
        let Ghost(next) = contribute(&mut owners, Ghost(cs), &team_name, &source);
        proof {
            cs = next;
        }
    }
    // The vendored gem owner.
    if let Some((team_name, source)) = vendored_gem_owner(rel.as_str(), config, teams) {
        let Ghost(next) = contribute(&mut owners, Ghost(cs), &team_name, &source);
        proof {
            cs = next;
        }
    }
    let ghost base = cs;
    assert(base == opt_seq(annotation_contribution(cv, bn, relv, top_v)) + opt_seq(
        best_directory_owner(root, bn, ds),
    ) + opt_seq(nearest_package_spec(root, cv, bn, ds)) + opt_seq(
        vendored_gem_owner_spec(relv, cv.vendored_gems_path, tv),
    ));
    // The teams' globs.
    let ghost g = |t: TeamView| team_glob_contributions(t, relv);
    let mut i: usize = 0;
    assert(tv.take(0).map_values(g).flatten_alt() =~= Seq::<(Seq<char>, SourceView)>::empty());
    assert(base + Seq::<(Seq<char>, SourceView)>::empty() =~= base);
    while i < teams.len()
        invariant
            i <= teams.len(),
            tv == teams@.map_values(|t: Team| t@),
            relv == rel@,
            g == (|t: TeamView| team_glob_contributions(t, relv)),
            cs == base + tv.take(i as int).map_values(g).flatten_alt(),
            owners@.map_values(|o: Owner| o@) == group_owners(cs),
        decreases teams.len() - i,
    {
        let team = &teams[i];
        let ghost tt = team@;
        assert(tv[i as int] == tt);
        let ghost pred = |x: Seq<char>| spec_glob_match(x, relv) && !any_glob_matches(
            tt.subtracted_globs,
            relv,
        );
        let ghost mk = |x: Seq<char>| (tt.name, SourceView::TeamGlob(x));
        let ghost start = cs;
        let mut j: usize = 0;
        proof {
            reveal(Seq::filter);
            assert(tt.owned_globs.take(0).filter(pred).map_values(mk) =~= Seq::<
                (Seq<char>, SourceView),
            >::empty());
            assert(start + Seq::<(Seq<char>, SourceView)>::empty() =~= start);
        }
        while j < team.owned_globs.len()
            invariant
                j <= team.owned_globs.len(),
                tt == team@,
                relv == rel@,
                pred == (|x: Seq<char>| spec_glob_match(x, relv) && !any_glob_matches(
                    tt.subtracted_globs,
                    relv,
                )),
                mk == (|x: Seq<char>| (tt.name, SourceView::TeamGlob(x))),
                cs == start + tt.owned_globs.take(j as int).filter(pred).map_values(mk),
                owners@.map_values(|o: Owner| o@) == group_owners(cs),
            decreases team.owned_globs.len() - j,
        {
            let owned_glob = &team.owned_globs[j];
            let ghost gv = owned_glob@;
            assert(tt.owned_globs[j as int] == gv);
            let ghost before = tt.owned_globs.take(j as int).filter(pred);
            proof {
                reveal(Seq::filter);
                assert(tt.owned_globs.take(j + 1).drop_last() =~= tt.owned_globs.take(j as int));
                assert(tt.owned_globs.take(j + 1).last() == gv);
            }
            if glob_match(owned_glob.as_str(), rel.as_str()) && !glob_list_matches(
                rel.as_str(),
                &team.subtracted_globs,
            ) {
                let source = Source::TeamGlob(owned_glob.clone());
                let Ghost(next) = contribute(&mut owners, Ghost(cs), &team.name, &source);
                proof {
                    cs = next;
                    assert(tt.owned_globs.take(j + 1).filter(pred) == before.push(gv));
                    assert(before.push(gv).map_values(mk) =~= before.map_values(mk).push(mk(gv)));
                    assert(cs =~= start + tt.owned_globs.take(j + 1).filter(pred).map_values(mk));
                }
            } else {
                assert(tt.owned_globs.take(j + 1).filter(pred) == before);
            }
            j = j + 1;
        }
        proof {
            assert(tt.owned_globs.take(team.owned_globs.len() as int) =~= tt.owned_globs);
            assert(g(tt) == tt.owned_globs.filter(pred).map_values(mk));
            assert(tv.take(i + 1).map_values(g) =~= tv.take(i as int).map_values(g).push(g(tt)));
            lemma_flatten_alt_push(tv.take(i as int).map_values(g), g(tt));
            assert(cs =~= base + tv.take(i + 1).map_values(g).flatten_alt());
        }
        i = i + 1;
    }
    assert(tv.take(teams.len() as int) =~= tv);
    let ghost base2 = cs;
    // The teams whose configuration file this is.
    let ghost ypred = |t: TeamView| path_eq_spec(relative_to_spec(root, t.path), relv);
    let ghost ymk = |t: TeamView| (t.name, SourceView::TeamYml);
    let mut k: usize = 0;
    proof {
        reveal(Seq::filter);
        assert(tv.take(0).filter(ypred).map_values(ymk) =~= Seq::<(Seq<char>, SourceView)>::empty());
        assert(base2 + Seq::<(Seq<char>, SourceView)>::empty() =~= base2);
    }
    while k < teams.len()
        invariant
            k <= teams.len(),
            tv == teams@.map_values(|t: Team| t@),
            relv == rel@,
            root == project_root@,
            ypred == (|t: TeamView| path_eq_spec(relative_to_spec(root, t.path), relv)),
            ymk == (|t: TeamView| (t.name, SourceView::TeamYml)),
            cs == base2 + tv.take(k as int).filter(ypred).map_values(ymk),
            owners@.map_values(|o: Owner| o@) == group_owners(cs),
        decreases teams.len() - k,
    {
        let team = &teams[k];
        let ghost tt = team@;
        assert(tv[k as int] == tt);
        let ghost before = tv.take(k as int).filter(ypred);
        proof {
            reveal(Seq::filter);
            assert(tv.take(k + 1).drop_last() =~= tv.take(k as int));
            assert(tv.take(k + 1).last() == tt);
        }
        let team_rel = relative_to(project_root, team.path.as_str());
        if path_eq(team_rel.as_str(), rel.as_str()) {
            let Ghost(next) = contribute(&mut owners, Ghost(cs), &team.name, &Source::TeamYml);
            proof {
                cs = next;
                assert(tv.take(k + 1).filter(ypred) == before.push(tt));
                assert(before.push(tt).map_values(ymk) =~= before.map_values(ymk).push(ymk(tt)));
                assert(cs =~= base2 + tv.take(k + 1).filter(ypred).map_values(ymk));
            }
        } else {
            assert(tv.take(k + 1).filter(ypred) == before);
        }
        k = k + 1;
    }
    assert(tv.take(teams.len() as int) =~= tv);
    assert(cs == fast_contributions(root, cv, file_path@, opt_view(*first_line), ds, tv));
    // The owners whose team exists, with the team's details.
    let ghost ov = owners@.map_values(|o: Owner| o@);
    let ghost fo = |o: OwnerView| fast_file_owner(root, bn, o);
    let mut file_owners: Vec<FileOwner> = Vec::new();
    let mut m: usize = 0;
    while m < owners.len()
        invariant
            m <= owners.len(),
            ov == owners@.map_values(|o: Owner| o@),
            bn == by_name@,
            root == project_root@,
            fo == (|o: OwnerView| fast_file_owner(root, bn, o)),
            file_owners@.map_values(|o: FileOwner| o@) == ov.take(m as int).filter_map(fo),
        decreases owners.len() - m,
    {
        let owner = &owners[m];
        assert(ov[m as int] == owner@);
        assert(ov.take(m + 1).drop_last() =~= ov.take(m as int));
        assert(ov.take(m + 1).last() == owner@);
        if let Some(team) = by_name.get(owner.team_name.as_str()) {
            let ghost before = file_owners@;
            let team_config_file_path = relative_to(project_root, team.path.as_str());
            file_owners.push(
                FileOwner {
                    team: team.duplicate(),
                    team_config_file_path,
                    sources: copy_sources(&owner.sources),
                },
            );
            assert(file_owners@.map_values(|o: FileOwner| o@) =~= before.map_values(
                |o: FileOwner| o@,
            ).push(fo(owner@).unwrap()));
        }
        m = m + 1;
    }
    assert(ov.take(owners.len() as int) =~= ov);
    // Ordered by their most trusted source, then by team name.
    let ghost fv = file_owners@;
    let ghost sle = |a: FileOwner, b: FileOwner| fast_owner_le(a@, b@);
    let ghost vle = |a: FileOwnerView, b: FileOwnerView| fast_owner_le(a, b);
    proof {
        lemma_fast_owner_le_total_preorder();
        assert forall|a: FileOwner, b: FileOwner| #[trigger] sle(a, b) || sle(b, a) by {
            assert(vle(a@, b@) || vle(b@, a@));
        }
        assert forall|a: FileOwner, b: FileOwner, c: FileOwner| #[trigger] sle(a, b) && #[trigger] sle(
            b,
            c,
        ) implies sle(a, c) by {
            assert(vle(a@, b@) && vle(b@, c@) ==> vle(a@, c@));
        }
        assert forall|a: FileOwner, b: FileOwner| #[trigger] sle(a, b) == vle(a@, b@) by {}
        lemma_stable_sorted_map(fv, sle, |o: FileOwner| o@, vle);
    }
    let owner_le = |a: &FileOwner, b: &FileOwner| -> (r: bool)
        ensures
            r == fast_owner_le(a@, b@),
        {
            let pa = min_source_priority(&a.sources);
            let pb = min_source_priority(&b.sources);
            pa < pb || (pa == pb && (text_less(a.team.name.as_str(), b.team.name.as_str())
                || str_eq(a.team.name.as_str(), b.team.name.as_str())))
        };
    sort_by(file_owners, owner_le, Ghost(sle))
}

/// The owners found without the CODEOWNERS file come ordered by their most
/// trusted source, then by team name.
pub proof fn lemma_fast_owners_ordered(
    root: Seq<char>,
    config: ConfigView,
    file_path: Seq<char>,
    first_line: Option<Seq<char>>,
    ds: Seq<DirectoryFactsView>,
    teams: Seq<TeamView>,
)
    ensures
        crate::sort::sorted_by(
            fast_owners_spec(root, config, file_path, first_line, ds, teams),
            |a: FileOwnerView, b: FileOwnerView| fast_owner_le(a, b),
        ),
{
    lemma_fast_owner_le_total_preorder();
    let by_name = teams_by_any_name_spec(teams);
    let owners = group_owners(fast_contributions(root, config, file_path, first_line, ds, teams));
    crate::sort::lemma_stable_sorted_is_sorted(
        owners.filter_map(|o: OwnerView| fast_file_owner(root, by_name, o)),
        |a: FileOwnerView, b: FileOwnerView| fast_owner_le(a, b),
    );
}

/// A team's glob gives it no file that one of the team's unowned globs
/// matches.
pub proof fn lemma_unowned_globs_subtract(t: TeamView, rel: Seq<char>)
    requires
        any_glob_matches(t.subtracted_globs, rel),
    ensures
        team_glob_contributions(t, rel).len() == 0,
{
    let pred = |g: Seq<char>| spec_glob_match(g, rel) && !any_glob_matches(t.subtracted_globs, rel);
    assert(t.owned_globs.filter(pred) =~= Seq::<Seq<char>>::empty()) by {
        if t.owned_globs.filter(pred).len() > 0 {
            let g = t.owned_globs.filter(pred)[0];
            t.owned_globs.filter_lemma(pred);
            assert(pred(g));
        }
    }
}

/// No contribution in `cs` comes from a top-of-file annotation.
pub open spec fn no_annotation(cs: Seq<(Seq<char>, SourceView)>) -> bool {
    forall|i: int| 0 <= i < cs.len() ==> !((#[trigger] cs[i]).1 is AnnotatedFile)
}

proof fn lemma_no_annotation_concat(a: Seq<(Seq<char>, SourceView)>, b: Seq<(Seq<char>, SourceView)>)
    requires
        no_annotation(a),
        no_annotation(b),
    ensures
        no_annotation(a + b),
{
    assert forall|i: int| 0 <= i < (a + b).len() implies !((#[trigger] (a + b)[i]).1 is AnnotatedFile) by {
        if i < a.len() {
            assert((a + b)[i] == a[i]);
        } else {
            assert((a + b)[i] == b[i - a.len()]);
        }
    }
}

proof fn lemma_best_directory_source(root: Seq<char>, teams: Map<Seq<char>, TeamView>, ds: Seq<DirectoryFactsView>)
    ensures
        best_directory_owner(root, teams, ds) matches Some(c) ==> c.1 is Directory,
    decreases ds.len(),
{
    if ds.len() > 0 {
        lemma_best_directory_source(root, teams, ds.drop_last());
    }
}

proof fn lemma_nearest_package_source(
    root: Seq<char>,
    config: ConfigView,
    teams: Map<Seq<char>, TeamView>,
    ds: Seq<DirectoryFactsView>,
)
    ensures
        nearest_package_spec(root, config, teams, ds) matches Some(c) ==> c.1 is Package,
    decreases ds.len(),
{
    if ds.len() > 0 {
        lemma_nearest_package_source(root, config, teams, ds.drop_first());
    }
}

/// Every element of a flattened list of lists is an element of one of them.
pub proof fn lemma_flatten_alt_elem<A>(s: Seq<Seq<A>>, i: int)
    requires
        0 <= i < s.flatten_alt().len(),
    ensures
        exists|k: int, j: int|
            0 <= k < s.len() && 0 <= j < s[k].len() && #[trigger] s[k][j] == s.flatten_alt()[i],
    decreases s.len(),
{
    if s.len() > 0 {
        let init = s.drop_last();
        let f = init.flatten_alt();
        assert(s.flatten_alt() == f + s.last());
        if i < f.len() {
            lemma_flatten_alt_elem(init, i);
            let (k, j) = choose|k: int, j: int|
                0 <= k < init.len() && 0 <= j < init[k].len() && #[trigger] init[k][j] == f[i];
            assert(s[k] == init[k]);
        } else {
            assert(s[s.len() - 1][i - f.len()] == s.flatten_alt()[i]);
        }
    }
}

/// A top-of-file annotation gives a file an owner in the fast lookup only
/// when an owned glob matches the file's path relative to the root and no
/// unowned glob does: every owner with an annotation source has such a path.
pub proof fn lemma_annotation_needs_owned_file(
    root: Seq<char>,
    config: ConfigView,
    file_path: Seq<char>,
    first_line: Option<Seq<char>>,
    ds: Seq<DirectoryFactsView>,
    teams: Seq<TeamView>,
)
    ensures
        forall|i: int, j: int|
            0 <= i < fast_owners_spec(root, config, file_path, first_line, ds, teams).len() && 0 <= j
                < fast_owners_spec(root, config, file_path, first_line, ds, teams)[i].sources.len()
                && (#[trigger] fast_owners_spec(
                root,
                config,
                file_path,
                first_line,
                ds,
                teams,
            )[i].sources[j]) is AnnotatedFile ==> any_glob_matches(
                config.owned_globs,
                relative_to_spec(root, absolute_file_path_spec(root, file_path)),
            ) && !any_glob_matches(
                config.unowned_globs,
                relative_to_spec(root, absolute_file_path_spec(root, file_path)),
            ),
{
    let rel = relative_to_spec(root, absolute_file_path_spec(root, file_path));
    let by_name = teams_by_any_name_spec(teams);
    let top = match first_line {
        Some(l) => first_line_team_spec(l),
        None => None,
    };
    let a = opt_seq(annotation_contribution(config, by_name, rel, top));
    let b = opt_seq(best_directory_owner(root, by_name, ds));
    let c = opt_seq(nearest_package_spec(root, config, by_name, ds));
    let d = opt_seq(vendored_gem_owner_spec(rel, config.vendored_gems_path, teams));
    let gs = teams.map_values(|t: TeamView| team_glob_contributions(t, rel));
    let e = gs.flatten_alt();
    let f = team_yml_contributions(root, teams, rel);
    let cs = fast_contributions(root, config, file_path, first_line, ds, teams);
    assert(cs == a + b + c + d + e + f);
    lemma_best_directory_source(root, by_name, ds);
    lemma_nearest_package_source(root, config, by_name, ds);
    assert(no_annotation(b));
    assert(no_annotation(c));
    assert(no_annotation(d));
    assert(no_annotation(e)) by {
        assert forall|q: int| 0 <= q < e.len() implies !((#[trigger] e[q]).1 is AnnotatedFile) by {
            lemma_flatten_alt_elem(gs, q);
            let (k, j) = choose|k: int, j: int|
                0 <= k < gs.len() && 0 <= j < gs[k].len() && #[trigger] gs[k][j] == e[q];
            let t = teams[k];
            let kept = t.owned_globs.filter(
                |g: Seq<char>| spec_glob_match(g, rel) && !any_glob_matches(t.subtracted_globs, rel),
            );
            assert(gs[k] == kept.map_values(|g: Seq<char>| (t.name, SourceView::TeamGlob(g))));
            assert(gs[k][j] == (t.name, SourceView::TeamGlob(kept[j])));
        }
    }
    assert(no_annotation(f)) by {
        let kept = teams.filter(|t: TeamView| path_eq_spec(relative_to_spec(root, t.path), rel));
        assert forall|q: int| 0 <= q < f.len() implies !((#[trigger] f[q]).1 is AnnotatedFile) by {
            assert(f[q] == (kept[q].name, SourceView::TeamYml));
        }
    }
    lemma_no_annotation_concat(b, c);
    lemma_no_annotation_concat(b + c, d);
    lemma_no_annotation_concat(b + c + d, e);
    lemma_no_annotation_concat(b + c + d + e, f);
    let rest = b + c + d + e + f;
    assert(cs =~= a + rest);
    let owners = group_owners(cs);
    lemma_group_owners_sources(cs);
    let ff = |o: OwnerView| fast_file_owner(root, by_name, o);
    let fl = owners.filter_map(ff);
    let le = |x: FileOwnerView, y: FileOwnerView| fast_owner_le(x, y);
    lemma_fast_owner_le_total_preorder();
    lemma_stable_sorted_is_sorted(fl, le);
    let r = fast_owners_spec(root, config, file_path, first_line, ds, teams);
    assert(r == stable_sorted(fl, le));
    assert forall|i: int, j: int|
        0 <= i < r.len() && 0 <= j < r[i].sources.len() && (#[trigger] r[i].sources[j]) is AnnotatedFile
        implies any_glob_matches(config.owned_globs, rel) && !any_glob_matches(config.unowned_globs, rel) by {
        r.to_multiset_ensures();
        fl.to_multiset_ensures();
        assert(r.contains(r[i]));
        assert(r.to_multiset().count(r[i]) > 0);
        assert(r.to_multiset() == fl.to_multiset());
        assert(fl.to_multiset().count(r[i]) > 0);
        assert(fl.contains(r[i]));
        owners.lemma_filter_map_contains(ff, r[i]);
        let o = choose|o: OwnerView| #[trigger] owners.contains(o) && ff(o) == Some(r[i]);
        let m = choose|m: int| 0 <= m < owners.len() && owners[m] == o;
        assert(r[i].sources == o.sources);
        let src = owners[m].sources[j];
        assert(cs.contains((owners[m].team_name, src)));
        let q = choose|q: int| 0 <= q < cs.len() && cs[q] == (owners[m].team_name, src);
        if q >= a.len() {
            assert(cs[q] == rest[q - a.len()]);
        } else {
            assert(a.len() > 0);
        }
    }
}

proof fn lemma_filter_map_has<A, B>(s: Seq<A>, f: spec_fn(A) -> Option<B>, m: int)
    requires
        0 <= m < s.len(),
        f(s[m]) is Some,
    ensures
        s.filter_map(f).contains(f(s[m]).unwrap()),
    decreases s.len(),
{
    let init = s.drop_last();
    if m < s.len() - 1 {
        assert(init[m] == s[m]);
        lemma_filter_map_has(init, f, m);
        let k = choose|k: int| 0 <= k < init.filter_map(f).len() && init.filter_map(f)[k] == f(s[m]).unwrap();
        match f(s.last()) {
            Some(y) => {
                assert(s.filter_map(f) == init.filter_map(f) + seq![y]);
                assert(s.filter_map(f)[k] == init.filter_map(f)[k]);
            },
            None => {},
        }
    } else {
        assert(s.last() == s[m]);
        assert(s.filter_map(f) == init.filter_map(f) + seq![f(s[m]).unwrap()]);
        assert(s.filter_map(f)[init.filter_map(f).len() as int] == f(s[m]).unwrap());
    }
}

proof fn lemma_map_of_has_key<V>(es: Seq<(Seq<char>, V)>, i: int)
    requires
        0 <= i < es.len(),
    ensures
        crate::strmap::map_of(es).contains_key(es[i].0),
    decreases es.len(),
{
    if i < es.len() - 1 {
        assert(es.drop_last()[i] == es[i]);
        lemma_map_of_has_key(es.drop_last(), i);
    }
}

/// A top-of-file annotation that names a known team gives the file an owner
/// with an annotation source in the fast lookup, when an owned glob matches
/// the file's path relative to the root and no unowned glob does.
pub proof fn lemma_owned_annotation_gives_owner(
    root: Seq<char>,
    config: ConfigView,
    file_path: Seq<char>,
    first_line: Seq<char>,
    ds: Seq<DirectoryFactsView>,
    teams: Seq<TeamView>,
)
    requires
        first_line_team_spec(first_line) is Some,
        teams_by_any_name_spec(teams).contains_key(first_line_team_spec(first_line).unwrap()),
        any_glob_matches(config.owned_globs, relative_to_spec(root, absolute_file_path_spec(root, file_path))),
        !any_glob_matches(config.unowned_globs, relative_to_spec(root, absolute_file_path_spec(root, file_path))),
    ensures
        exists|i: int, j: int|
            0 <= i < fast_owners_spec(root, config, file_path, Some(first_line), ds, teams).len() && 0 <= j
                < fast_owners_spec(root, config, file_path, Some(first_line), ds, teams)[i].sources.len()
                && (#[trigger] fast_owners_spec(
                root,
                config,
                file_path,
                Some(first_line),
                ds,
                teams,
            )[i].sources[j]) is AnnotatedFile,
{
    let rel = relative_to_spec(root, absolute_file_path_spec(root, file_path));
    let by_name = teams_by_any_name_spec(teams);
    let t = first_line_team_spec(first_line).unwrap();
    let team = by_name[t];
    let cs = fast_contributions(root, config, file_path, Some(first_line), ds, teams);
    let a = opt_seq(annotation_contribution(config, by_name, rel, Some(t)));
    assert(a == seq![(team.name, SourceView::AnnotatedFile)]);
    assert(cs[0] == (team.name, SourceView::AnnotatedFile));
    let owners = group_owners(cs);
    lemma_group_owners_sources(cs);
    let (m, j) = choose|m: int, j: int|
        0 <= m < owners.len() && 0 <= j < owners[m].sources.len() && owners[m].team_name == (
        #[trigger] cs[0]).0 && owners[m].sources[j] == cs[0].1;
    // The team's name is a key of the teams by any name.
    crate::ownership::file_generator::lemma_team_by_any_name_is_a_team(teams, t);
    let k = choose|k: int| 0 <= k < teams.len() && teams[k] == by_name[t];
    let pairs = teams.map_values(|x: TeamView| seq![(x.name, x), (x.github_team, x)]);
    let es = team_keys(teams);
    assert(es == pairs.flatten_alt());
    crate::ownership::file_generator::lemma_flatten_alt_has(pairs, k, 0);
    let q = choose|q: int| 0 <= q < pairs.flatten_alt().len() && #[trigger] pairs.flatten_alt()[q] == pairs[k][0];
    assert(pairs[k] == seq![(teams[k].name, teams[k]), (teams[k].github_team, teams[k])]);
    lemma_map_of_has_key(es, q);
    assert(by_name.contains_key(owners[m].team_name));
    let ff = |o: OwnerView| fast_file_owner(root, by_name, o);
    let fl = owners.filter_map(ff);
    lemma_filter_map_has(owners, ff, m);
    let y = ff(owners[m]).unwrap();
    assert(y.sources == owners[m].sources);
    let le = |x: FileOwnerView, z: FileOwnerView| fast_owner_le(x, z);
    lemma_fast_owner_le_total_preorder();
    lemma_stable_sorted_is_sorted(fl, le);
    let r = fast_owners_spec(root, config, file_path, Some(first_line), ds, teams);
    assert(r == stable_sorted(fl, le));
    r.to_multiset_ensures();
    fl.to_multiset_ensures();
    assert(fl.to_multiset().count(y) > 0);
    assert(r.to_multiset().count(y) > 0);
    let i = choose|i: int| 0 <= i < r.len() && r[i] == y;
    assert(r[i].sources[j] is AnnotatedFile);
}

} // verus!
