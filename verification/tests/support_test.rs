use codeowners::cache::file::GlobalCache;
use codeowners::cache::noop::NoopCache;
use codeowners::cache::{Cache, FileOwnerCacheEntry};
use codeowners::config::{
    default_cache_directory, default_executable_name, default_ignore_dirs, javascript_package_paths,
    ruby_package_paths, team_file_glob, unowned_globs, vendored_gems_path, Config,
};
use codeowners::crosscheck::{collect_mismatches, crosscheck_report, fast_display, format_mismatch, is_match};
use codeowners::files::{find_tracked_files, split_nul, untracked_files};
use codeowners::ownership::file_owner_finder::{order_owners_by_lower_name, Owner};
use codeowners::ownership::mapper::Source;
use codeowners::ownership::validator::Errors;
use codeowners::ownership::{FileOwner, Ownership, TeamOwnership};
use codeowners::project::deserializers::{Github, Metadata, RubyPackage, Team as TeamFile};
use codeowners::project::validator::{Error as ProjectError, Validator as ProjectValidator};
use codeowners::project::{Error, Package, PackageType, Project, ProjectFile, Team};
use codeowners::project_builder::{
    keep_entry, ruby_package_owner, EntryContent, EntryType, ProjectBuilder,
};
use codeowners::ownership::codeowners_query::files_to_validate;
use codeowners::runner::{
    codeowners_only_report, codeowners_only_result, files_report, for_file_outcome, for_file_report,
    for_file_result, for_team_report, validate_report, RunResult,
};
use codeowners::verify::winner_display;

fn config() -> Config {
    Config {
        owned_globs: vec!["{app,packs}/**/*.rb".to_string()],
        ruby_package_paths: ruby_package_paths(),
        javascript_package_paths: javascript_package_paths(),
        team_file_glob: team_file_glob(),
        unowned_globs: vec!["app/generated/**".to_string()],
        vendored_gems_path: "vendored".to_string(),
        cache_directory: default_cache_directory(),
        ignore_dirs: default_ignore_dirs(),
        executable_name: "bin/codeownership".to_string(),
    }
}

fn team(name: &str) -> Team {
    Team {
        path: format!("/proj/config/teams/{}.yml", name.to_lowercase()),
        name: name.to_string(),
        github_team: format!("@{}", name),
        owned_globs: vec![],
        subtracted_globs: vec![],
        owned_gems: vec![],
        avoid_ownership: false,
    }
}

#[test]
fn config_defaults() {
    assert_eq!(ruby_package_paths(), vec!["packs/**/*", "components/**"]);
    assert_eq!(javascript_package_paths(), vec!["frontend/**/*"]);
    assert_eq!(team_file_glob(), vec!["config/teams/**/*.yml"]);
    assert_eq!(unowned_globs(), vec!["frontend/**/node_modules/**/*", "frontend/**/__generated__/**/*"]);
    assert_eq!(vendored_gems_path(), "vendored/");
    assert_eq!(default_cache_directory(), "tmp/cache/codeowners");
    assert_eq!(default_executable_name(), "codeowners");
    assert_eq!(default_ignore_dirs().len(), 12);
    assert!(default_ignore_dirs().contains(&"node_modules".to_string()));
}

#[test]
fn entry_types_follow_the_configuration() {
    let builder = ProjectBuilder::new(config(), "/proj".to_string(), "/proj/.github/CODEOWNERS".to_string());
    let kind = |p: &str, d: bool| builder.build_entry_type(p, d).unwrap();
    assert!(matches!(kind("/proj/app", true), EntryType::Directory(_, r) if r == "app"));
    assert!(matches!(kind("/proj/packs/foo/package.yml", false), EntryType::RubyPackage(_, _)));
    assert!(matches!(kind("/proj/packs/foo/PACKAGE.YML", false), EntryType::RubyPackage(_, _)));
    assert!(matches!(kind("/proj/frontend/flow/package.json", false), EntryType::JavascriptPackage(_, _)));
    assert!(matches!(kind("/proj/lib/package.yml", false), EntryType::NullEntry()));
    assert!(matches!(kind("/proj/app/.codeowner", false), EntryType::CodeownerFile(_, _)));
    assert!(matches!(kind("/proj/config/teams/a.yml", false), EntryType::TeamFile(_, _)));
    assert!(matches!(kind("/proj/app/models/a.rb", false), EntryType::OwnedFile(_, r) if r == "app/models/a.rb"));
    assert!(matches!(kind("/proj/app/generated/a.rb", false), EntryType::NullEntry()));
    assert_eq!(builder.build_entry_type("/elsewhere/a.rb", false).unwrap_err(), Error::Io);
}

#[test]
fn walk_skips_untracked_files_and_ignored_top_level_directories() {
    let ignore = default_ignore_dirs();
    assert!(!keep_entry("/proj", "/proj/app/a.rb", "a.rb", true, false, true, &ignore));
    assert!(keep_entry("/proj", "/proj/app/a.rb", "a.rb", true, false, false, &ignore));
    assert!(!keep_entry("/proj", "/proj/node_modules", "node_modules", false, true, false, &ignore));
    assert!(keep_entry("/proj", "/proj/app/node_modules", "node_modules", false, true, false, &ignore));
}

fn ruby(owner: Option<&str>, metadata_owner: Option<&str>) -> RubyPackage {
    RubyPackage {
        owner: owner.map(|o| o.to_string()),
        metadata: metadata_owner.map(|o| Metadata { owner: Some(o.to_string()) }),
    }
}

#[test]
fn ruby_package_owner_cases() {
    assert_eq!(ruby_package_owner(&ruby(Some("TeamA"), None)).unwrap(), Some("TeamA".to_string()));
    assert_eq!(ruby_package_owner(&ruby(None, Some("TeamB"))).unwrap(), Some("TeamB".to_string()));
    assert_eq!(ruby_package_owner(&ruby(Some("TeamA"), Some("TeamB"))).unwrap_err(), Error::Io);
    assert_eq!(ruby_package_owner(&ruby(Some("TeamA"), Some("TeamA"))).unwrap(), Some("TeamA".to_string()));
    assert_eq!(ruby_package_owner(&ruby(None, None)).unwrap(), None);
}

fn team_file(name: &str) -> TeamFile {
    TeamFile {
        name: name.to_string(),
        github: Github { team: format!("@{}", name), do_not_add_to_codeowners_file: false },
        ruby: None,
        owned_globs: vec!["packs/a/**".to_string()],
        unowned_globs: vec!["packs/a/legacy/**".to_string()],
    }
}

#[test]
fn project_from_entries() {
    let builder = ProjectBuilder::new(config(), "/proj".to_string(), "/proj/.github/CODEOWNERS".to_string());
    let entries = vec![
        EntryContent::Directory("/proj/vendored/gem_a".to_string(), "vendored/gem_a".to_string()),
        EntryContent::Directory("/proj/vendored".to_string(), "vendored".to_string()),
        EntryContent::RubyPackage("packs/a/package.yml".to_string(), ruby(Some("A"), None)),
        EntryContent::RubyPackage("packs/b/package.yml".to_string(), ruby(None, None)),
        EntryContent::CodeownerFile("app/.codeowner".to_string(), "  A\n".to_string()),
        EntryContent::TeamFile("/proj/config/teams/a.yml".to_string(), team_file("A")),
        EntryContent::OwnedFile(ProjectFile { owner: None, path: "/proj/app/x.rb".to_string() }),
        EntryContent::NullEntry(),
    ];
    let project = builder.build_project_from_entry_types(entries, Some("text".to_string())).unwrap();
    assert_eq!(project.vendored_gems.len(), 1);
    assert_eq!(project.vendored_gems[0].name, "gem_a");
    assert_eq!(project.packages.len(), 1);
    assert_eq!(project.packages[0].owner, "A");
    assert_eq!(project.directory_codeowner_files[0].owner, "A");
    assert_eq!(project.teams[0].subtracted_globs, vec!["packs/a/legacy/**".to_string()]);
    assert_eq!(project.files.len(), 1);
    assert_eq!(project.executable_name, "bin/codeownership");
    assert_eq!(project.codeowners_file, Some("text".to_string()));

    let failing = vec![EntryContent::RubyPackage("packs/c/package.yml".to_string(), ruby(Some("A"), Some("B")))];
    assert_eq!(builder.build_project_from_entry_types(failing, None).err(), Some(Error::Io));
}

#[test]
fn project_validator_reports_unknown_teams() {
    let files = vec![
        ProjectFile { owner: Some("Nobody".to_string()), path: "/proj/app/a.rb".to_string() },
        ProjectFile { owner: Some("A".to_string()), path: "/proj/app/b.rb".to_string() },
    ];
    let teams = vec![team("A")];
    let packages = vec![Package { path: "packs/x/package.yml".to_string(), package_type: PackageType::Ruby, owner: "Ghost".to_string() }];
    let errors = ProjectValidator::new(&files, &teams, &packages).validate().unwrap_err();
    assert_eq!(errors.0.len(), 2);
    assert_eq!(errors.0[0].to_text(), "- /proj/app/a.rb is referencing an invalid team - 'Nobody'");
    assert!(matches!(&errors.0[1], ProjectError::InvalidTeam(t, _) if t == "Ghost"));
    assert_eq!(errors.to_text(), "Error");
    assert!(ProjectValidator::new(&files[1..].to_vec(), &teams, &vec![]).validate().is_ok());
}

#[test]
fn cache_gives_back_what_it_was_given_for_the_same_time() {
    let mut cache = GlobalCache::new("/proj".to_string(), "tmp/cache".to_string(), vec![]);
    assert!(cache.get_file_owner("/proj/a.rb", Ok(7)).unwrap().is_none());
    cache.write_file_owner("/proj/a.rb", Ok(7), Some("owner 1".to_string()));
    let entry = cache.get_file_owner("/proj/a.rb", Ok(7)).unwrap().unwrap();
    assert_eq!(entry.timestamp, 7);
    assert_eq!(entry.owner, Some("owner 1".to_string()));
    assert!(cache.get_file_owner("/proj/a.rb", Ok(8)).unwrap().is_none());
    assert_eq!(cache.get_file_owner("/proj/a.rb", Err(Error::Io)).err(), Some(Error::Io));
    cache.write_file_owner("/proj/b.rb", Err(Error::Io), Some("x".to_string()));
    assert!(cache.get_file_owner("/proj/b.rb", Ok(1)).unwrap().is_none());
    assert_eq!(cache.get_cache_path(), "/proj/tmp/cache/project-file-cache.json");
    assert_eq!(cache.entry_count(), 1);
    let (path, kept) = cache.entry_at(0);
    assert_eq!(path, "/proj/a.rb");
    assert_eq!(kept.owner, Some("owner 1".to_string()));
}

#[test]
fn loaded_cache_keeps_the_later_entry() {
    let loaded = vec![
        ("/p/a.rb".to_string(), FileOwnerCacheEntry { timestamp: 1, owner: Some("A".to_string()) }),
        ("/p/a.rb".to_string(), FileOwnerCacheEntry { timestamp: 2, owner: Some("B".to_string()) }),
    ];
    let cache = GlobalCache::new("/p".to_string(), "c".to_string(), loaded);
    assert_eq!(cache.get_file_owner("/p/a.rb", Ok(2)).unwrap().unwrap().owner, Some("B".to_string()));
    let noop = NoopCache::default();
    assert!(noop.get_file_owner("/p/a.rb").unwrap().is_none());
    assert!(noop.persist_cache().is_ok());
    assert!(noop.delete_cache().is_ok());
}

#[test]
fn git_output_is_split_at_nul_bytes() {
    let out = b"a.rb\0dir with spaces/(special)/b.rb\0\0".to_vec();
    assert_eq!(split_nul(&out).len(), 2);
    let untracked = untracked_files("/proj", true, &out).unwrap();
    assert_eq!(untracked, vec!["/proj/a.rb", "/proj/dir with spaces/(special)/b.rb"]);
    assert!(untracked_files("/proj", false, &out).unwrap().is_empty());
    assert!(untracked_files("/proj", true, &vec![0xff, 0xfe]).is_err());
    assert_eq!(find_tracked_files("/proj", true, &b"x.rb\0".to_vec()), Some(vec!["/proj/x.rb".to_string()]));
    assert_eq!(find_tracked_files("/proj", false, &b"x.rb\0".to_vec()), None);
    assert_eq!(find_tracked_files("/proj", true, &vec![0xff]), None);
}

fn owner(name: &str, sources: Vec<Source>) -> Owner {
    Owner { team_name: name.to_string(), sources }
}

#[test]
fn owners_are_ordered_by_lower_case_team_name() {
    let owners = vec![owner("Zeta", vec![Source::TeamYml]), owner("alpha", vec![Source::TeamGem])];
    let ordered = order_owners_by_lower_name(&owners);
    let names: Vec<&str> = ordered.iter().map(|o| o.team_name.as_str()).collect();
    assert_eq!(names, vec!["alpha", "Zeta"]);
}

fn file_owner(name: &str, sources: Vec<Source>) -> FileOwner {
    FileOwner { team: team(name), team_config_file_path: format!("config/teams/{}.yml", name.to_lowercase()), sources }
}

#[test]
fn file_owner_text_lists_sorted_sources() {
    let fo = file_owner("Bar", vec![Source::TeamYml, Source::Directory("app".to_string())]);
    assert_eq!(
        fo.to_text(),
        "Team: Bar\nGithub Team: @Bar\nTeam YML: config/teams/bar.yml\nDescription:\n- Owner specified in `app/.codeowner`\n- Teams own their configuration files"
    );
    assert_eq!(
        FileOwner::default().to_text(),
        "Team: Unowned\nGithub Team: Unowned\nTeam YML: \nDescription:"
    );
}

#[test]
fn for_file_report_cases() {
    let none = for_file_report(&vec![]);
    assert_eq!(none.info_messages, vec![FileOwner::default().to_text()]);
    let one = for_file_report(&vec![file_owner("Bar", vec![Source::TeamYml])]);
    assert_eq!(one.info_messages.len(), 1);
    assert!(one.validation_errors.is_empty());
    let many = for_file_report(&vec![file_owner("Bar", vec![Source::TeamYml]), file_owner("Foo", vec![Source::TeamGem])]);
    assert!(many.info_messages.is_empty());
    assert_eq!(many.validation_errors.len(), 3);
    assert_eq!(many.validation_errors[0], "Error: file is owned by multiple teams!");
    assert!(many.validation_errors[2].starts_with("\nTeam: Foo"));
    assert!(many.has_errors());
    assert!(!one.has_errors());
}

#[test]
fn for_team_report_cases() {
    let report = for_team_report(
        "Bar",
        Ok(vec![
            TeamOwnership { heading: "# Team YML ownership".to_string(), globs: vec!["/config/teams/bar.yml".to_string(), "/b".to_string()] },
            TeamOwnership { heading: "# Team owned gems".to_string(), globs: vec![] },
            TeamOwnership { heading: "# Owner in .codeowner".to_string(), globs: vec!["/app/**/**".to_string()] },
        ]),
    );
    assert_eq!(
        report.info_messages,
        vec![
            "# Code Ownership Report for `Bar` Team",
            "\n## Owned Files",
            "/app/**/**",
            "/b",
            "/config/teams/bar.yml",
        ]
    );
    assert_eq!(
        report.info_messages.join("\n"),
        "# Code Ownership Report for `Bar` Team\n\n## Owned Files\n/app/**/**\n/b\n/config/teams/bar.yml"
    );
    let empty = for_team_report("Bam", Ok(vec![TeamOwnership { heading: "# Team owned gems".to_string(), globs: vec![] }]));
    assert_eq!(empty.info_messages, vec!["# Code Ownership Report for `Bam` Team", "\n## Owned Files"]);
    let failed = for_team_report("Nope", Err("Team not found".to_string()));
    assert_eq!(failed.io_errors, vec!["Team not found"]);
    assert!(failed.info_messages.is_empty());
}

#[test]
fn codeowners_only_report_cases() {
    let found = codeowners_only_report("/proj", Ok(Some(team("Bar"))));
    assert_eq!(
        found.info_messages,
        vec!["Team: Bar\nGithub Team: @Bar\nTeam YML: config/teams/bar.yml\nDescription:\n- Owner inferred from codeowners file"]
    );
    let none = codeowners_only_report("/proj", Ok(None));
    assert_eq!(none.info_messages, vec![FileOwner::default().to_text()]);
    let failed = codeowners_only_report("/proj", Err("Invalid line".to_string()));
    assert_eq!(failed.io_errors, vec!["Invalid line"]);
}

#[test]
fn validate_report_cases() {
    let ok = validate_report(&Ok(()));
    assert!(!ok.has_errors());
    let project = Project {
        base_path: "".to_string(),
        files: vec![],
        packages: vec![],
        vendored_gems: vec![],
        teams: vec![],
        codeowners_file_path: ".github/CODEOWNERS".to_string(),
        directory_codeowner_files: vec![],
        codeowners_file: None,
        executable_name: "bin/codeownership".to_string(),
    };
    let result = Ownership::build(project).validate();
    let report = validate_report(&result);
    assert_eq!(
        report.validation_errors,
        vec!["\nCODEOWNERS out of date. Run `bin/codeownership generate` to update the CODEOWNERS file\n"]
    );
    let _: Option<Errors> = result.err();
    let _ = RunResult::default();
}

#[test]
fn crosscheck_helpers() {
    assert_eq!(fast_display(&vec![]), "Unowned");
    assert_eq!(fast_display(&vec![file_owner("Bar", vec![Source::TeamYml])]), "Bar");
    assert_eq!(
        fast_display(&vec![file_owner("Bar", vec![Source::TeamYml]), file_owner("Foo", vec![Source::TeamYml])]),
        "Multiple: Bar, Foo"
    );
    assert!(is_match(None, "Unowned"));
    assert!(is_match(Some("Bar"), "Bar"));
    assert!(!is_match(Some("Bar"), "Unowned"));
    assert!(!is_match(None, "Bar"));
    let project = Project {
        base_path: "/proj".to_string(),
        files: vec![
            ProjectFile { owner: None, path: "/proj/app/a.rb".to_string() },
            ProjectFile { owner: None, path: "/proj/app/b.rb".to_string() },
        ],
        packages: vec![],
        vendored_gems: vec![],
        teams: vec![],
        codeowners_file_path: "/proj/.github/CODEOWNERS".to_string(),
        directory_codeowner_files: vec![],
        codeowners_file: Some(String::new()),
        executable_name: "codeowners".to_string(),
    };
    assert_eq!(format_mismatch(&project, "/proj/app/a.rb", "Unowned", "Bar"), "- app/a.rb: CODEOWNERS=Unowned fast=Bar");
    let mismatches = collect_mismatches(
        &project,
        &vec![(None, "Unowned".to_string()), (Some("Foo".to_string()), "Bar".to_string())],
    );
    assert_eq!(mismatches, vec!["- app/b.rb: CODEOWNERS=Foo fast=Bar"]);
    assert_eq!(
        crosscheck_report(Ok(vec![])).info_messages,
        vec!["Success! All files match between CODEOWNERS and for-file command."]
    );
    assert_eq!(crosscheck_report(Ok(mismatches.clone())).validation_errors, mismatches);
    assert_eq!(crosscheck_report(Err("boom".to_string())).io_errors, vec!["boom"]);
}

#[test]
fn verify_winner_display() {
    assert_eq!(winner_display(&vec![]), "Unowned");
    let globs = vec![
        file_owner("Foo", vec![Source::TeamGlob("a/**".to_string())]),
        file_owner("Bar", vec![Source::TeamGlob("a/b/**".to_string())]),
    ];
    assert_eq!(winner_display(&globs), "Multiple: Foo, Bar");
    let mixed = vec![
        file_owner("Foo", vec![Source::TeamYml]),
        file_owner("Bar", vec![Source::Directory("a".to_string())]),
        file_owner("Baz", vec![Source::Directory("b".to_string())]),
    ];
    assert_eq!(winner_display(&mixed), "Bar");
}

#[test]
fn test_cache_dir() {
    let base = "/tmp/codeowners-cache-test".to_string();
    let cache_dir = "test-codeowners-cache";
    let file_path = "tests/fixtures/valid_project/ruby/app/models/bank_account.rb";
    let timestamp: u64 = 1_700_000_000;
    let mut cache = GlobalCache::new(base.clone(), cache_dir.to_owned(), vec![]);

    assert!(cache.get_file_owner(file_path, Ok(timestamp)).unwrap().is_none());

    cache.write_file_owner(file_path, Ok(timestamp), Some("owner 1".to_owned()));
    let entry = cache.get_file_owner(file_path, Ok(timestamp)).unwrap().unwrap();
    assert_eq!(entry.timestamp, timestamp);
    assert_eq!(entry.owner, Some("owner 1".to_owned()));

    assert_eq!(cache.get_cache_path(), "/tmp/codeowners-cache-test/test-codeowners-cache/project-file-cache.json");
    let persisted: Vec<(String, FileOwnerCacheEntry)> = (0..cache.entry_count()).map(|i| cache.entry_at(i)).collect();

    let cache = GlobalCache::new(base, cache_dir.to_owned(), persisted);
    let entry = cache.get_file_owner(file_path, Ok(timestamp)).unwrap().unwrap();
    assert_eq!(entry.timestamp, timestamp);
    assert_eq!(entry.owner, Some("owner 1".to_owned()));
}

#[test]
fn unowned_file_report_ends_at_description() {
    let none = for_file_report(&vec![]);
    assert_eq!(none.info_messages, vec!["Team: Unowned\nGithub Team: Unowned\nTeam YML: \nDescription:"]);
}

#[test]
fn for_file_json_results() {
    let r = for_file_result(&file_owner("Payroll", vec![Source::AnnotatedFile]));
    assert_eq!(r.team_name, "Payroll");
    assert_eq!(r.github_team, "@Payroll");
    assert_eq!(r.team_yml, "config/teams/payroll.yml");
    assert_eq!(r.description, vec!["Owner annotation at the top of the file"]);

    let unowned = for_file_outcome(&vec![]).unwrap();
    assert_eq!(unowned.team_name, "Unowned");
    assert_eq!(unowned.github_team, "Unowned");
    assert_eq!(unowned.team_yml, "");
    assert!(unowned.description.is_empty());

    let many = for_file_outcome(&vec![file_owner("Bar", vec![Source::TeamYml]), file_owner("Foo", vec![Source::TeamGem])])
        .unwrap_err();
    assert_eq!(many.len(), 3);
    assert_eq!(many[0], "Error: file is owned by multiple teams!");

    let fast = codeowners_only_result("/proj", &Some(team("Bar")));
    assert_eq!(fast.team_yml, "config/teams/bar.yml");
    assert_eq!(fast.description, vec!["Owner inferred from codeowners file"]);
    let fast_none = codeowners_only_result("/proj", &None);
    assert_eq!(fast_none.team_name, "Unowned");
    assert!(fast_none.description.is_empty());
}

#[test]
fn validate_files_checks_only_selected_files() {
    let selected = files_to_validate(
        "/proj",
        &config(),
        &vec![
            "app/models/a.rb".to_string(),
            "app/models/a.rbi".to_string(),
            "/proj/packs/x/b.rb".to_string(),
            "app/generated/c.rb".to_string(),
        ],
    );
    assert_eq!(selected, vec!["app/models/a.rb", "packs/x/b.rb"]);

    let ok = files_report(&vec![("app/models/a.rb".to_string(), true)]);
    assert!(!ok.has_errors());
    let bad = files_report(&vec![
        ("app/models/a.rb".to_string(), true),
        ("app/unowned.rb".to_string(), false),
        ("packs/x/b.rb".to_string(), false),
    ]);
    assert_eq!(bad.validation_errors, vec!["Unowned files detected:\n- app/unowned.rb\n- packs/x/b.rb"]);
    assert!(bad.info_messages.is_empty());
}

#[test]
fn cache_dispatches_to_the_cache_file_or_to_nothing() {
    let mut global = Cache::Global(GlobalCache::new("/proj".to_string(), "tmp/cache".to_string(), vec![]));
    global.write_file_owner("/proj/a.rb", Ok(3), Some("Bar".to_string()));
    let entry = global.get_file_owner("/proj/a.rb", Ok(3)).unwrap().unwrap();
    assert_eq!(entry.owner, Some("Bar".to_string()));
    assert!(global.get_file_owner("/proj/a.rb", Ok(4)).unwrap().is_none());

    let mut none = Cache::Noop(NoopCache::default());
    none.write_file_owner("/proj/a.rb", Ok(3), Some("Bar".to_string()));
    assert!(none.get_file_owner("/proj/a.rb", Ok(3)).unwrap().is_none());
}
