use codeowners::config::{
    default_cache_directory, default_ignore_dirs, ruby_package_paths, Config,
};
use codeowners::ownership::file_owner_finder::{DirectoryOverrider, Owner};
use codeowners::ownership::mapper::{
    DirectoryMapper, Mapper, OwnerMatcher, PackageMapper, RubyPackageMapper, Source,
    TeamFileMapper, TeamGemMapper, TeamGlobMapper, TeamYmlMapper,
};
use codeowners::ownership::validator::{multiple_team_file_owners, Error as ValidatorError};
use codeowners::ownership::{Entry, Ownership, TeamOwnership};
use codeowners::project::deserializers;
use codeowners::project::{Package, PackageType, Project};
use codeowners::project_builder::{EntryContent, EntryType, ProjectBuilder};
use codeowners::project_file_builder::build_project_file_without_cache;

const BASE: &str = "/tmp/codeowners-fixture";

struct TestTeam {
    name: &'static str,
    owned_globs: Vec<&'static str>,
    owned_gems: Vec<&'static str>,
    unowned_globs: Vec<&'static str>,
}

fn team(name: &'static str) -> TestTeam {
    TestTeam { name, owned_globs: vec![], owned_gems: vec![], unowned_globs: vec![] }
}

fn default_teams() -> Vec<TestTeam> {
    vec![team("Bar"), team("Foo"), team("Baz"), team("Bam")]
}

fn test_config() -> Config {
    Config {
        owned_globs: vec![
            "{app,components,config,frontend,lib,packs,spec}/**/*.{rb,rake,js,jsx,ts,tsx,json,yml}"
                .to_string(),
        ],
        ruby_package_paths: ruby_package_paths(),
        javascript_package_paths: vec!["javascript/packages/**".to_string()],
        team_file_glob: vec!["config/teams/**/*.yml".to_string()],
        unowned_globs: vec!["config/code_ownership.yml".to_string()],
        vendored_gems_path: "gems".to_string(),
        cache_directory: default_cache_directory(),
        ignore_dirs: default_ignore_dirs(),
        executable_name: "codeowners".to_string(),
    }
}

fn team_file(t: &TestTeam) -> deserializers::Team {
    deserializers::Team {
        name: t.name.to_string(),
        github: deserializers::Github {
            team: format!("@{}", t.name),
            do_not_add_to_codeowners_file: false,
        },
        ruby: if t.owned_gems.is_empty() {
            None
        } else {
            Some(deserializers::Ruby { owned_gems: t.owned_gems.iter().map(|g| g.to_string()).collect() })
        },
        owned_globs: t.owned_globs.iter().map(|g| g.to_string()).collect(),
        unowned_globs: t.unowned_globs.iter().map(|g| g.to_string()).collect(),
    }
}

fn package_owner(content: &str) -> Option<String> {
    content
        .lines()
        .find_map(|l| l.strip_prefix("owner: "))
        .map(|o| o.trim().to_string())
}

/// The entries of a walk of a project made of the given files and teams,
/// with what is read of each.
fn entries(
    builder: &ProjectBuilder,
    files: &[(&str, &str)],
    teams: &[TestTeam],
) -> Vec<EntryContent> {
    let mut all: Vec<(String, String)> =
        files.iter().map(|(p, c)| (p.to_string(), c.to_string())).collect();
    all.push(("config/code_ownership.yml".to_string(), "---\n".to_string()));
    for t in teams {
        all.push((format!("config/teams/{}.yml", t.name.to_lowercase()), String::new()));
    }
    let mut dirs: Vec<String> = vec![String::new(), ".github".to_string()];
    for (p, _) in &all {
        let parts: Vec<&str> = p.split('/').collect();
        for k in 1..parts.len() {
            let d = parts[..k].join("/");
            if !dirs.contains(&d) {
                dirs.push(d);
            }
        }
    }
    let mut out = Vec::new();
    for d in &dirs {
        let abs = if d.is_empty() { BASE.to_string() } else { format!("{}/{}", BASE, d) };
        match builder.build_entry_type(&abs, true).unwrap() {
            EntryType::Directory(a, r) => out.push(EntryContent::Directory(a, r)),
            other => panic!("unexpected entry {:?}", other),
        }
    }
    for (p, content) in &all {
        let abs = format!("{}/{}", BASE, p);
        match builder.build_entry_type(&abs, false).unwrap() {
            EntryType::RubyPackage(_, rel) => out.push(EntryContent::RubyPackage(
                rel,
                deserializers::RubyPackage { owner: package_owner(content), metadata: None },
            )),
            EntryType::JavascriptPackage(_, rel) => out.push(EntryContent::JavascriptPackage(
                rel,
                deserializers::JavascriptPackage {
                    metadata: Some(deserializers::Metadata { owner: package_owner(content) }),
                },
            )),
            EntryType::CodeownerFile(_, rel) => {
                out.push(EntryContent::CodeownerFile(rel, content.to_string()))
            }
            EntryType::TeamFile(a, _) => {
                let t = teams
                    .iter()
                    .find(|t| a.ends_with(&format!("/{}.yml", t.name.to_lowercase())))
                    .expect("a team for the team file");
                out.push(EntryContent::TeamFile(a, team_file(t)));
            }
            EntryType::OwnedFile(a, _) => {
                let first_line = content.lines().next().map(|l| l.to_string());
                out.push(EntryContent::OwnedFile(build_project_file_without_cache(a, first_line)));
            }
            EntryType::NullEntry() => {}
            EntryType::Directory(_, _) => panic!("a file read as a directory"),
        }
    }
    out
}

/// The project made of the given files and teams, whose CODEOWNERS file is
/// the generated one.
fn build_project(files: &[(&str, &str)], teams: Vec<TestTeam>) -> Project {
    let builder = ProjectBuilder::new(
        test_config(),
        BASE.to_string(),
        format!("{}/.github/CODEOWNERS", BASE),
    );
    let first = builder
        .build_project_from_entry_types(entries(&builder, files, &teams), None)
        .unwrap();
    let generated = Ownership::build(first).generate_file();
    builder
        .build_project_from_entry_types(entries(&builder, files, &teams), Some(generated))
        .unwrap()
}

fn all_mappers_project() -> Project {
    let mut teams = default_teams();
    teams[2].owned_globs = vec!["packs/bar/**"];
    teams[3].owned_gems = vec!["taco"];
    build_project(
        &[
            ("app/consumers/directory_owned.rb", "class DirectoryOwned\nend\n"),
            ("app/consumers/.codeowner", "Bar\n"),
            ("packs/foo/package.yml", "owner: Baz\n"),
            ("packs/foo/app/services/package_owned.rb", "class PackageOwned\nend\n"),
            ("packs/bar/app/services/team_file_owned.rb", "class GlobMapperOwned\nend\n"),
            ("packs/zebra/app/services/team_file_owned.rb", "# @team Foo\nclass TeamFileOwned\nend\n"),
            ("packs/jscomponents/comp.ts", "// @team Foo\n"),
            ("gems/taco/sauce.rb", "class Taco::Sauce\nend\n"),
        ],
        teams,
    )
}

fn directory_project() -> Project {
    build_project(
        &[
            ("app/consumers/deep/nesting/nestdir/deep_file.rb", "class DeepFile\nend\n"),
            ("app/consumers/one_owner.rb", "class OneOwner\nend\n"),
            ("app/services/service_file.rb", "class ServiceFile\nend\n"),
            ("app/services/some_other_file.rb", "class SomeOtherFile\nend\n"),
            ("app/consumers/.codeowner", "Bar\n"),
            ("app/services/.codeowner", "Foo\n"),
            ("app/services/exciting/.codeowner", "Bar\n"),
        ],
        default_teams(),
    )
}

fn directory_project_with_brackets() -> Project {
    build_project(
        &[
            ("app/[consumers]/deep/nesting/[nestdir]/deep_file.rb", "class DeepFile\nend\n"),
            ("app/[consumers]/one_owner.rb", "class OneOwner\nend\n"),
            ("app/services/service_file.rb", "class ServiceFile\nend\n"),
            ("app/services/some_other_file.rb", "class SomeOtherFile\nend\n"),
            ("app/[consumers]/.codeowner", "Bar\n"),
            ("app/[consumers]/deep/nesting/[nestdir]/.codeowner", "Foo\n"),
        ],
        default_teams(),
    )
}

fn team_file_project() -> Project {
    build_project(
        &[
            ("packs/jscomponents/comp.ts", "// @team Foo\n"),
            ("packs/[admin]/comp.ts", "// @team Bar\n"),
            ("packs/bar/comp.rb", "// @team Bar\n"),
        ],
        default_teams(),
    )
}

fn package_project() -> Project {
    build_project(
        &[
            ("packs/foo/package.yml", "owner: Baz\n"),
            ("packs/foo/app/services/package_owned.rb", "class PackageOwned\nend\n"),
            ("packs/bam/package.yml", "owner: Bam\n"),
            ("packs/bam/app/services/package_owned.rb", "class PackageOwned\nend\n"),
        ],
        default_teams(),
    )
}

fn vecs_match<T: PartialEq + std::fmt::Debug>(a: &Vec<T>, b: &Vec<T>) {
    assert_eq!(a.len(), b.len(), "Vectors have different lengths");
    for elem_a in a {
        assert!(b.contains(elem_a), "Element {:?} from first vector not found in second vector", elem_a);
    }
    for elem_b in b {
        assert!(a.contains(elem_b), "Element {:?} from second vector not found in first vector", elem_b);
    }
}

fn entry(path: &str, github_team: &str, team_name: &str) -> Entry {
    Entry {
        path: path.to_string(),
        github_team: github_team.to_string(),
        team_name: team_name.to_string(),
        disabled: false,
    }
}

/// A glob matcher as a comparable value: glob, subtracted globs, team, source.
fn glob_parts(m: &OwnerMatcher) -> (String, Vec<String>, String, Source) {
    match m {
        OwnerMatcher::Glob { glob, subtracted_globs, team_name, source } => {
            (glob.clone(), subtracted_globs.clone(), team_name.clone(), source.clone())
        }
        OwnerMatcher::ExactMatches(_, _) => panic!("expected a glob matcher"),
    }
}

fn glob(g: &str, team: &str, source: Source) -> (String, Vec<String>, String, Source) {
    (g.to_string(), vec![], team.to_string(), source)
}

#[test]
fn test_for_file_owner() {
    let ownership = Ownership::build(all_mappers_project());
    let file_owners = ownership.for_file("app/consumers/directory_owned.rb").unwrap();
    assert_eq!(file_owners.len(), 1);
    assert_eq!(file_owners[0].team.name, "Bar");
    assert_eq!(file_owners[0].team_config_file_path, "config/teams/bar.yml");
}

#[test]
fn test_for_file_no_owner() {
    let ownership = Ownership::build(all_mappers_project());
    let file_owners = ownership.for_file("app/madeup/foo.rb").unwrap();
    assert_eq!(file_owners.len(), 0);
}

#[test]
fn ownership_test_for_team() {
    let ownership = Ownership::build(all_mappers_project());
    let team_ownership = ownership.for_team("Bar");
    assert!(team_ownership.is_ok());
}

#[test]
fn test_for_team_not_found() {
    let ownership = Ownership::build(all_mappers_project());
    let team_ownership = ownership.for_team("Nope");
    assert!(team_ownership.is_err(), "Team not found");
}

#[test]
fn test_directory_overrider() {
    let mut directory_overrider = DirectoryOverrider::default();
    assert_eq!(directory_overrider.specific_directory_owner(), None);

    let team_name_1 = "team1".to_string();
    let source_1 = Source::Directory("src/**".to_string());
    directory_overrider.process(&team_name_1, &source_1);
    assert_eq!(directory_overrider.specific_directory_owner(), Some((&team_name_1, &source_1)));

    let team_name_longest = "team2".to_string();
    let source_longest = Source::Directory("source/subdir/**".to_string());
    directory_overrider.process(&team_name_longest, &source_longest);
    assert_eq!(
        directory_overrider.specific_directory_owner(),
        Some((&team_name_longest, &source_longest))
    );

    let team_name_3 = "team3".to_string();
    let source_3 = Source::Directory("source/**".to_string());
    directory_overrider.process(&team_name_3, &source_3);
    assert_eq!(
        directory_overrider.specific_directory_owner(),
        Some((&team_name_longest, &source_longest))
    );
}

#[test]
fn directory_mapper_test_entries() {
    let project = directory_project();
    let mapper = DirectoryMapper::build(&project);
    vecs_match(
        &mapper.entries(),
        &vec![
            entry("app/consumers/**/**", "@Bar", "Bar"),
            entry("app/services/**/**", "@Foo", "Foo"),
            entry("app/services/exciting/**/**", "@Bar", "Bar"),
        ],
    );
}

#[test]
fn test_entries_with_brackets() {
    let project = directory_project_with_brackets();
    let mapper = DirectoryMapper::build(&project);
    vecs_match(
        &mapper.entries(),
        &vec![
            entry("app/\\[consumers\\]/**/**", "@Bar", "Bar"),
            entry("app/\\[consumers\\]/deep/nesting/\\[nestdir\\]/**/**", "@Foo", "Foo"),
        ],
    );
}

#[test]
fn directory_mapper_test_owner_matchers() {
    let project = directory_project();
    let mapper = DirectoryMapper::build(&project);
    let matchers: Vec<_> = mapper.owner_matchers().iter().map(glob_parts).collect();
    vecs_match(
        &matchers,
        &vec![
            glob("app/consumers/**/**", "Bar", Source::Directory("app/consumers".to_string())),
            glob("app/services/**/**", "Foo", Source::Directory("app/services".to_string())),
            glob(
                "app/services/exciting/**/**",
                "Bar",
                Source::Directory("app/services/exciting".to_string()),
            ),
        ],
    );
}

#[test]
fn test_owner_matchers_with_brackets() {
    let project = directory_project_with_brackets();
    let mapper = DirectoryMapper::build(&project);
    let matchers: Vec<_> = mapper.owner_matchers().iter().map(glob_parts).collect();
    vecs_match(
        &matchers,
        &vec![
            glob("app/\\[consumers\\]/**/**", "Bar", Source::Directory("app/[consumers]".to_string())),
            glob(
                "app/\\[consumers\\]/deep/nesting/\\[nestdir\\]/**/**",
                "Foo",
                Source::Directory("app/[consumers]/deep/nesting/[nestdir]".to_string()),
            ),
        ],
    );
}

fn ruby_package(path: &str, owner: &str) -> Package {
    Package { path: path.to_string(), package_type: PackageType::Ruby, owner: owner.to_string() }
}

#[test]
fn test_remove_nested_packages() {
    let packages = vec![
        ruby_package("packs/a/package.yml", "owner_a"),
        ruby_package("packs/a/b/e/package.yml", "owner_b"),
        ruby_package("packs/a/b/c/e/d/f/package.yml", "owner_b"),
        ruby_package("packs/c/package.yml", "owner_a"),
    ];
    let package_paths: Vec<String> = codeowners::ownership::mapper::package_mapper::remove_nested_packages(&packages)
        .iter()
        .map(|package| package.path.clone())
        .collect();
    assert_eq!(package_paths, vec!["packs/a/package.yml", "packs/c/package.yml"]);
}

#[test]
fn package_mapper_test_entries() {
    let project = all_mappers_project();
    let mapper = RubyPackageMapper::build(&project);
    vecs_match(&mapper.entries(), &vec![entry("packs/foo/**/**", "@Baz", "Baz")]);
}

#[test]
fn package_mapper_test_owner_matchers() {
    let project = package_project();
    let mapper = PackageMapper::build(&project);
    let matchers: Vec<_> = mapper.owner_matchers(&PackageType::Ruby).iter().map(glob_parts).collect();
    let expected: Vec<_> = vec![
        OwnerMatcher::new_glob(
            "packs/bam/**/**".to_owned(),
            "Bam".to_owned(),
            Source::Package("packs/bam/package.yml".to_owned(), "packs/bam/**/**".to_owned()),
        ),
        OwnerMatcher::new_glob(
            "packs/foo/**/**".to_owned(),
            "Baz".to_owned(),
            Source::Package("packs/foo/package.yml".to_owned(), "packs/foo/**/**".to_owned()),
        ),
    ]
    .iter()
    .map(glob_parts)
    .collect();
    vecs_match(&matchers, &expected);
}

#[test]
fn team_file_mapper_test_entries() {
    let project = team_file_project();
    let mapper = TeamFileMapper::build(&project);
    vecs_match(
        &mapper.entries(),
        &vec![
            entry("packs/\\[admin\\]/comp.ts", "@Bar", "Bar"),
            entry("packs/jscomponents/comp.ts", "@Foo", "Foo"),
            entry("packs/bar/comp.rb", "@Bar", "Bar"),
        ],
    );
}

#[test]
fn team_file_mapper_test_owner_matchers() {
    let project = team_file_project();
    let mapper = TeamFileMapper::build(&project);
    let owner_matchers = mapper.owner_matchers();
    assert_eq!(owner_matchers.len(), 1);
    match &owner_matchers[0] {
        OwnerMatcher::ExactMatches(map, source) => {
            assert_eq!(*source, Source::AnnotatedFile);
            assert_eq!(map.get("packs/[admin]/comp.ts"), Some(&"Bar".to_owned()));
            assert_eq!(map.get("packs/bar/comp.rb"), Some(&"Bar".to_owned()));
            assert_eq!(map.get("packs/jscomponents/comp.ts"), Some(&"Foo".to_owned()));
            assert_eq!(map.len(), 3);
        }
        OwnerMatcher::Glob { .. } => panic!("expected exact matches"),
    }
}

#[test]
fn team_gem_mapper_test_entries() {
    let project = all_mappers_project();
    let mapper = TeamGemMapper::build(&project);
    let entries = mapper.entries();
    assert_eq!(entries, vec![entry("gems/taco/**/**", "@Bam", "Bam")]);
}

#[test]
fn team_gem_mapper_test_owner_matchers() {
    let mut teams = default_teams();
    teams[3].owned_gems = vec!["globbing"];
    let project = build_project(&[("gems/globbing/globber.rb", "class Globbing::Globber\nend\n")], teams);
    let mapper = TeamGemMapper::build(&project);
    let owner_matchers: Vec<_> = mapper.owner_matchers().iter().map(glob_parts).collect();
    assert_eq!(owner_matchers, vec![glob("gems/globbing/**/*", "Bam", Source::TeamGem)]);
}

#[test]
fn team_glob_mapper_test_entries() {
    let project = all_mappers_project();
    let mapper = TeamGlobMapper::build(&project);
    vecs_match(&mapper.entries(), &vec![entry("packs/bar/**", "@Baz", "Baz")]);
}

#[test]
fn team_glob_mapper_test_owner_matchers() {
    let mut teams = default_teams();
    teams[2].owned_globs = vec!["packs/bar/**"];
    let project = build_project(&[], teams);
    let mapper = TeamGlobMapper::build(&project);
    let expected = OwnerMatcher::new_glob_with_candidate_subtracted_globs(
        "packs/bar/**".to_owned(),
        &vec![],
        "@Baz".to_owned(),
        Source::TeamGlob("packs/bar/**".to_owned()),
    );
    vecs_match(
        &mapper.owner_matchers().iter().map(glob_parts).collect(),
        &vec![glob_parts(&expected)],
    );
}

#[test]
fn test_owner_matchers_with_subtracted_globs() {
    let mut teams = default_teams();
    teams[2].owned_globs = vec!["packs/bar/**"];
    teams[2].unowned_globs = vec!["packs/bar/excluded/**"];
    let project = build_project(&[], teams);
    let mapper = TeamGlobMapper::build(&project);
    let expected = OwnerMatcher::new_glob_with_candidate_subtracted_globs(
        "packs/bar/**".to_owned(),
        &vec!["packs/bar/excluded/**".to_owned()],
        "@Baz".to_owned(),
        Source::TeamGlob("packs/bar/**".to_owned()),
    );
    vecs_match(
        &mapper.owner_matchers().iter().map(glob_parts).collect(),
        &vec![glob_parts(&expected)],
    );
}

#[test]
fn team_yml_mapper_test_entries() {
    let mut teams = vec![team("Foo"), team("Bar"), team("Bam"), team("Baz")];
    teams[3].owned_globs = vec!["packs/bar/**"];
    teams[2].owned_gems = vec!["taco"];
    let project = build_project(&[("app/consumers/.codeowner", "Bar\n")], teams);
    let mapper = TeamYmlMapper::build(&project);
    let entries = mapper.entries();
    assert_eq!(
        entries,
        vec![
            entry("config/teams/foo.yml", "@Foo", "Foo"),
            entry("config/teams/bar.yml", "@Bar", "Bar"),
            entry("config/teams/bam.yml", "@Bam", "Bam"),
            entry("config/teams/baz.yml", "@Baz", "Baz"),
        ]
    );
}

#[test]
fn team_yml_mapper_test_owner_matchers() {
    let project = build_project(&[], default_teams());
    let mapper = TeamYmlMapper::build(&project);
    let owner_matchers = mapper.owner_matchers();
    assert_eq!(owner_matchers.len(), 1);
    match &owner_matchers[0] {
        OwnerMatcher::ExactMatches(map, source) => {
            assert_eq!(*source, Source::TeamYml);
            assert_eq!(map.get("config/teams/baz.yml"), Some(&"Baz".to_owned()));
            assert_eq!(map.get("config/teams/bam.yml"), Some(&"Bam".to_owned()));
            assert_eq!(map.get("config/teams/bar.yml"), Some(&"Bar".to_owned()));
            assert_eq!(map.get("config/teams/foo.yml"), Some(&"Foo".to_owned()));
            assert_eq!(map.len(), 4);
        }
        OwnerMatcher::Glob { .. } => panic!("expected exact matches"),
    }
}

fn owner_with_sources(team: &str, sources: Vec<Source>) -> Owner {
    Owner { team_name: team.to_string(), sources }
}

#[test]
fn multiple_team_file_owners_with_no_owners_returns_none() {
    let owners: Vec<Owner> = vec![];
    let result = multiple_team_file_owners(&owners, "app/models/user.rb");
    assert!(result.is_none());
}

#[test]
fn multiple_team_file_owners_with_single_owner_returns_none() {
    let owners = vec![owner_with_sources("Foo", vec![Source::TeamYml])];
    let result = multiple_team_file_owners(&owners, "app/models/user.rb");
    assert!(result.is_none());
}

#[test]
fn multiple_team_file_owners_with_multiple_non_teamfile_owners_returns_none() {
    let owners = vec![
        owner_with_sources("Foo", vec![Source::Directory("app".to_string())]),
        owner_with_sources("Bar", vec![Source::TeamGlob("packs/bar/**".to_string())]),
    ];
    let result = multiple_team_file_owners(&owners, "app/models/user.rb");
    assert!(result.is_none());
}

#[test]
fn multiple_team_file_owners_with_one_teamfile_owner_returns_none() {
    let owners = vec![
        owner_with_sources("Foo", vec![Source::TeamYml]),
        owner_with_sources("Bar", vec![Source::Directory("app/services".to_string())]),
    ];
    let result = multiple_team_file_owners(&owners, "app/services/service.rb");
    assert!(result.is_none());
}

#[test]
fn multiple_team_file_owners_with_two_teamfile_owners_returns_error() {
    let owners = vec![
        owner_with_sources("Foo", vec![Source::TeamYml]),
        owner_with_sources("Bar", vec![Source::TeamYml]),
    ];
    let path = "packs/payroll/services/runner.rb";
    let result = multiple_team_file_owners(&owners, path);
    match result {
        Some(ValidatorError::MultipleTeamYmls { path: p, owners: conflicting }) => {
            assert_eq!(p, path);
            assert_eq!(conflicting.len(), 2);
            let mut names: Vec<&str> = conflicting.iter().map(|o| o.team_name.as_str()).collect();
            names.sort_unstable();
            assert_eq!(names, vec!["Bar", "Foo"]);
            assert!(conflicting.iter().all(|o| o.sources.iter().any(|s| matches!(s, Source::TeamYml))));
        }
        _ => panic!("Expected MultipleTeamYmls error"),
    }
}

#[test]
fn all_mappers_project_validates() {
    let ownership = Ownership::build(all_mappers_project());
    assert!(ownership.validate().is_ok());
}

#[test]
fn for_file_lists_package_glob_and_annotation_owners() {
    let ownership = Ownership::build(all_mappers_project());
    let package_owned = ownership.for_file("packs/foo/app/services/package_owned.rb").unwrap();
    assert_eq!(package_owned.len(), 1);
    assert_eq!(package_owned[0].team.name, "Baz");
    assert_eq!(
        package_owned[0].sources,
        vec![Source::Package("packs/foo/package.yml".to_string(), "packs/foo/**/**".to_string())]
    );
    let annotated = ownership.for_file("packs/jscomponents/comp.ts").unwrap();
    assert_eq!(annotated.len(), 1);
    assert_eq!(annotated[0].team.name, "Foo");
    assert_eq!(annotated[0].sources, vec![Source::AnnotatedFile]);
    let team_yml = ownership.for_file("config/teams/bam.yml").unwrap();
    assert_eq!(team_yml.len(), 1);
    assert_eq!(team_yml[0].team.name, "Bam");
    assert_eq!(team_yml[0].sources, vec![Source::TeamYml]);
}

#[test]
fn for_team_reports_sections_of_the_generated_file() {
    let ownership = Ownership::build(all_mappers_project());
    let report = ownership.for_team("Bar").unwrap();
    let expected_headings = vec![
        "# Annotations at the top of file",
        "# Team-specific owned globs",
        "# Owner metadata key in package.yml",
        "# Owner metadata key in package.json",
        "# Team YML ownership",
        "# Team owned gems",
        "# Owner in .codeowner",
    ];
    let headings: Vec<&str> = report.iter().map(|t| t.heading.as_str()).collect();
    assert_eq!(headings, expected_headings);
    assert_eq!(
        report[4],
        TeamOwnership { heading: "# Team YML ownership".to_string(), globs: vec!["/config/teams/bar.yml".to_string()] }
    );
    assert_eq!(report[6].globs, vec!["/app/consumers/**/**".to_string()]);
    assert!(report[0].globs.is_empty());
}

#[test]
fn validate_reports_unowned_files_and_invalid_teams() {
    let project = build_project(
        &[
            ("app/models/orphan.rb", "class Orphan\nend\n"),
            ("app/models/annotated.rb", "# @team Nobody\nclass Annotated\nend\n"),
        ],
        default_teams(),
    );
    let ownership = Ownership::build(project);
    let errors = ownership.validate().unwrap_err();
    let text = errors.to_text();
    assert!(text.contains("\nFound invalid team annotations\n"));
    assert!(text.contains("- app/models/annotated.rb is referencing an invalid team - 'Nobody'"));
    assert!(text.contains("\nSome files are missing ownership\n"));
    assert!(text.contains("- app/models/orphan.rb"));
    assert!(!text.contains("CODEOWNERS out of date"));
}

#[test]
fn run_config_executable_name_overrides_config_file() {
    let run_config = codeowners::runner::RunConfig {
        project_root: BASE.to_string(),
        codeowners_file_path: format!("{}/.github/CODEOWNERS", BASE),
        config_path: format!("{}/config/code_ownership.yml", BASE),
        no_cache: true,
        executable_name: Some("my-wrapper-tool".to_string()),
    };
    let mut file_config = test_config();
    file_config.executable_name = "bin/codeownership".to_string();
    let config = run_config.apply_to(file_config);
    assert_eq!(config.executable_name, "my-wrapper-tool");
    let builder = ProjectBuilder::new(config, BASE.to_string(), format!("{}/.github/CODEOWNERS", BASE));
    let files = [("app/models/payroll.rb", "# @team Bar\n")];
    let project = builder.build_project_from_entry_types(entries(&builder, &files, &default_teams()), None).unwrap();
    let text = Ownership::build(project).validate().unwrap_err().to_text();
    assert!(text.contains("Run `my-wrapper-tool generate`"), "{}", text);
    assert!(!text.contains("bin/codeownership"));

    let without = codeowners::runner::RunConfig { executable_name: None, ..run_config };
    let mut file_config = test_config();
    file_config.executable_name = "bin/codeownership".to_string();
    assert_eq!(without.apply_to(file_config).executable_name, "bin/codeownership");
}

#[test]
fn generated_file_reads_back_each_teams_globs() {
    let ownership = Ownership::build(all_mappers_project());
    let file = ownership.generate_file();
    for team in ["Bar", "Foo", "Baz", "Bam"] {
        let github_team = format!("@{}", team);
        let expected: Vec<String> = file
            .lines()
            .filter(|l| !l.starts_with('#') && !l.is_empty() && l.ends_with(&github_team))
            .map(|l| l.split_once(' ').unwrap().0.to_string())
            .collect();
        let found: Vec<String> =
            ownership.for_team(team).unwrap().into_iter().flat_map(|t| t.globs.into_iter()).collect();
        assert_eq!(found, expected, "team {}", team);
        assert!(!found.is_empty());
    }
}
