use codeowners::config::Config;
use codeowners::ownership::for_file_fast::{
    absolute_file_path, build_teams_by_name_map, find_file_owners, most_specific_directory_owner,
    nearest_package_owner, source_priority, DirectoryFacts,
};
use codeowners::ownership::mapper::Source;
use codeowners::project::deserializers::{JavascriptPackage, Metadata, RubyPackage};
use codeowners::project::Team;

const ROOT: &str = "/proj";

fn build_config_for_temp(frontend_glob: &str, ruby_glob: &str, vendored_path: &str) -> Config {
    Config {
        owned_globs: vec!["**/*".to_string()],
        ruby_package_paths: vec![ruby_glob.to_string()],
        javascript_package_paths: vec![frontend_glob.to_string()],
        team_file_glob: vec!["config/teams/**/*.yml".to_string()],
        unowned_globs: vec![],
        vendored_gems_path: vendored_path.to_string(),
        cache_directory: "tmp/cache/codeowners".to_string(),
        ignore_dirs: vec![],
        executable_name: "codeowners".to_string(),
    }
}

fn team_named(name: &str) -> Team {
    Team {
        path: format!("{}/config/teams/{}.yml", ROOT, name.to_lowercase()),
        name: name.to_string(),
        github_team: format!("@{}Team", name),
        owned_globs: vec![],
        subtracted_globs: vec![],
        owned_gems: vec![],
        avoid_ownership: false,
    }
}

fn dir(rel: &str) -> DirectoryFacts {
    DirectoryFacts {
        dir: if rel.is_empty() { ROOT.to_string() } else { format!("{}/{}", ROOT, rel) },
        codeowner: None,
        ruby_package: None,
        javascript_package: None,
    }
}

/// The directories above a file, from the nearest up to the root.
fn dirs_above(rel_file: &str) -> Vec<DirectoryFacts> {
    let parts: Vec<&str> = rel_file.split('/').collect();
    let mut out = Vec::new();
    for k in (0..parts.len()).rev() {
        out.push(dir(&parts[..k].join("/")));
    }
    out
}

#[test]
fn test_most_specific_directory_owner_prefers_deeper() {
    let teams = vec![team_named("TopTeam"), team_named("MidTeam"), team_named("DeepTeam")];
    let tbn = build_teams_by_name_map(&teams);
    let mut dirs = dirs_above("a/b/c/file.rb");
    dirs[0].codeowner = Some("DeepTeam".to_string());
    dirs[1].codeowner = Some("MidTeam".to_string());
    dirs[2].codeowner = Some("TopTeam\n".to_string());
    let result = most_specific_directory_owner(ROOT, &dirs, &tbn).unwrap();
    match result.1 {
        Source::Directory(path) => assert!(path.ends_with("a/b/c"), "expected deepest directory, got {}", path),
        _ => panic!("expected Directory source"),
    }
    assert_eq!(result.0, "DeepTeam");
}

#[test]
fn directory_owner_is_found_by_github_team_and_skips_unknown_teams() {
    let teams = vec![team_named("TopTeam")];
    let tbn = build_teams_by_name_map(&teams);
    let mut dirs = dirs_above("a/b/file.rb");
    dirs[0].codeowner = Some("Nobody".to_string());
    dirs[1].codeowner = Some("  @TopTeamTeam \n".to_string());
    let result = most_specific_directory_owner(ROOT, &dirs, &tbn).unwrap();
    assert_eq!(result, ("TopTeam".to_string(), Source::Directory("a".to_string())));
}

#[test]
fn test_nearest_package_owner_ruby_and_js() {
    let config = build_config_for_temp("frontend/**/*", "packs/**/*", "vendored");
    let teams = vec![team_named("Payroll"), team_named("UX")];
    let tbn = build_teams_by_name_map(&teams);

    let mut ruby_dirs = dirs_above("packs/payroll/app/models/thing.rb");
    ruby_dirs[2].ruby_package = Some(RubyPackage { owner: Some("Payroll".to_string()), metadata: None });
    let ruby_owner = nearest_package_owner(ROOT, &ruby_dirs, &config, &tbn).unwrap();
    assert_eq!(ruby_owner.0, "Payroll");
    match ruby_owner.1 {
        Source::Package(pkg_path, glob) => {
            assert!(pkg_path.ends_with("packs/payroll/package.yml"));
            assert_eq!(glob, "packs/payroll/**/**");
        }
        _ => panic!("expected Package source for ruby"),
    }

    let mut js_dirs = dirs_above("frontend/flow/src/index.ts");
    js_dirs[1].javascript_package =
        Some(JavascriptPackage { metadata: Some(Metadata { owner: Some("UX".to_string()) }) });
    let js_owner = nearest_package_owner(ROOT, &js_dirs, &config, &tbn).unwrap();
    assert_eq!(js_owner.0, "UX");
    match js_owner.1 {
        Source::Package(pkg_path, glob) => {
            assert!(pkg_path.ends_with("frontend/flow/package.json"));
            assert_eq!(glob, "frontend/flow/**/**");
        }
        _ => panic!("expected Package source for js"),
    }
}

#[test]
fn package_outside_the_package_paths_gives_no_owner() {
    let config = build_config_for_temp("frontend/**/*", "packs/**/*", "vendored");
    let teams = vec![team_named("Payroll")];
    let tbn = build_teams_by_name_map(&teams);
    let mut dirs = dirs_above("lib/payroll/thing.rb");
    dirs[0].ruby_package = Some(RubyPackage { owner: Some("Payroll".to_string()), metadata: None });
    assert!(nearest_package_owner(ROOT, &dirs, &config, &tbn).is_none());
}

#[test]
fn source_priorities_rank_annotations_first() {
    assert_eq!(source_priority(&Source::AnnotatedFile), 0);
    assert_eq!(source_priority(&Source::Directory("a".to_string())), 1);
    assert_eq!(source_priority(&Source::Package("p".to_string(), "g".to_string())), 2);
    assert_eq!(source_priority(&Source::TeamGlob("g".to_string())), 3);
    assert_eq!(source_priority(&Source::TeamGem), 4);
    assert_eq!(source_priority(&Source::TeamYml), 5);
}

#[test]
fn absolute_file_path_joins_relative_paths_to_the_root() {
    assert_eq!(absolute_file_path(ROOT, "app/a.rb"), "/proj/app/a.rb");
    assert_eq!(absolute_file_path(ROOT, "/elsewhere/a.rb"), "/elsewhere/a.rb");
}

#[test]
fn find_file_owners_orders_by_trust_then_name() {
    let config = build_config_for_temp("frontend/**/*", "packs/**/*", "vendored");
    let mut payroll = team_named("Payroll");
    payroll.owned_globs = vec!["packs/payroll/**".to_string()];
    let mut alpha = team_named("Alpha");
    alpha.owned_globs = vec!["packs/**".to_string()];
    let ux = team_named("UX");
    let teams = vec![payroll, alpha, ux];
    let mut dirs = dirs_above("packs/payroll/app/thing.rb");
    dirs[1].codeowner = Some("UX".to_string());
    let first_line = Some("# @team Payroll".to_string());
    let owners = find_file_owners(ROOT, &config, "packs/payroll/app/thing.rb", &first_line, &dirs, &teams);
    let names: Vec<&str> = owners.iter().map(|o| o.team.name.as_str()).collect();
    assert_eq!(names, vec!["Payroll", "UX", "Alpha"]);
    assert_eq!(
        owners[0].sources,
        vec![Source::AnnotatedFile, Source::TeamGlob("packs/payroll/**".to_string())]
    );
    assert_eq!(owners[1].sources, vec![Source::Directory("packs/payroll".to_string())]);
    assert_eq!(owners[0].team_config_file_path, "config/teams/payroll.yml");
}

#[test]
fn find_file_owners_of_a_team_file_and_of_an_unowned_file() {
    let config = build_config_for_temp("frontend/**/*", "packs/**/*", "vendored");
    let mut payroll = team_named("Payroll");
    payroll.subtracted_globs = vec!["packs/payroll/legacy/**".to_string()];
    payroll.owned_globs = vec!["packs/payroll/**".to_string()];
    let teams = vec![payroll];
    let yml = find_file_owners(
        ROOT,
        &config,
        "config/teams/payroll.yml",
        &None,
        &dirs_above("config/teams/payroll.yml"),
        &teams,
    );
    assert_eq!(yml.len(), 1);
    assert_eq!(yml[0].sources, vec![Source::TeamYml]);
    let legacy = find_file_owners(
        ROOT,
        &config,
        "packs/payroll/legacy/old.rb",
        &None,
        &dirs_above("packs/payroll/legacy/old.rb"),
        &teams,
    );
    assert!(legacy.is_empty());
}
