use codeowners::ownership::codeowners_file_parser;
use codeowners::ownership::codeowners_file_parser::{
    codeowner_sections, stripped_lines_by_priority, Parser, Section,
};
use codeowners::ownership::codeowners_query::{team_for_file_from_codeowners, teams_for_files_from_codeowners};
use codeowners::ownership::file_generator::FileGenerator;
use codeowners::ownership::{parse_for_team, Ownership, TeamOwnership};
use codeowners::project::{Package, PackageType, Project, ProjectFile, Team, VendoredGem};

const OUT_OF_DATE: &str = "CODEOWNERS out of date. Run `codeowners generate` to update the CODEOWNERS file";

fn build_payroll_team() -> Team {
    Team {
        path: "config/teams/payroll.yml".to_owned(),
        name: "Payroll".to_owned(),
        github_team: "@Payroll-Eng".to_owned(),
        owned_globs: vec![],
        subtracted_globs: vec![],
        owned_gems: vec![],
        avoid_ownership: false,
    }
}

fn project(files: Vec<ProjectFile>, packages: Vec<Package>, teams: Vec<Team>, gems: Vec<VendoredGem>) -> Project {
    Project {
        base_path: "".to_owned(),
        files,
        packages,
        vendored_gems: gems,
        teams,
        codeowners_file_path: ".github/CODEOWNERS".to_owned(),
        directory_codeowner_files: vec![],
        codeowners_file: Some("".to_owned()),
        executable_name: "codeowners".to_owned(),
    }
}

fn unannotated_file() -> ProjectFile {
    ProjectFile { owner: None, path: "packs/payroll/services/runner_helper.rb".to_owned() }
}

fn with_disclaimer(lines: Vec<&str>) -> String {
    let mut buffer: Vec<String> = FileGenerator::disclaimer();
    buffer.extend(lines.iter().map(|l| l.to_string()));
    buffer.join("\n")
}

#[test]
fn test_annotations_at_the_top_of_file() {
    let files = vec![
        ProjectFile { owner: Some("Payroll".to_owned()), path: "packs/payroll/services/runner.rb".to_owned() },
        unannotated_file(),
    ];
    let ownership = Ownership::build(project(files, vec![], vec![build_payroll_team()], vec![]));
    assert_eq!(
        ownership.generate_file(),
        with_disclaimer(vec![
            "# Annotations at the top of file",
            "/packs/payroll/services/runner.rb @Payroll-Eng",
            "",
            "# Team-specific owned globs",
            "",
            "# Owner metadata key in package.yml",
            "",
            "# Owner metadata key in package.json",
            "",
            "# Team YML ownership",
            "/config/teams/payroll.yml @Payroll-Eng",
            "",
            "# Team owned gems",
            "",
            "# Owner in .codeowner",
            "",
        ])
    );
}

#[test]
fn test_team_specific_owned_globs() {
    let mut team = build_payroll_team();
    team.owned_globs = vec!["packs/payroll/**".to_owned()];
    let ownership = Ownership::build(project(vec![unannotated_file()], vec![], vec![team], vec![]));
    assert_eq!(
        ownership.generate_file(),
        with_disclaimer(vec![
            "# Annotations at the top of file",
            "",
            "# Team-specific owned globs",
            "/packs/payroll/** @Payroll-Eng",
            "",
            "# Owner metadata key in package.yml",
            "",
            "# Owner metadata key in package.json",
            "",
            "# Team YML ownership",
            "/config/teams/payroll.yml @Payroll-Eng",
            "",
            "# Team owned gems",
            "",
            "# Owner in .codeowner",
            "",
        ])
    );
}

#[test]
fn test_owner_metadata_in_package() {
    let packages = vec![
        Package {
            path: "packs/payroll_package/package.yml".to_owned(),
            package_type: PackageType::Ruby,
            owner: "Payroll".to_owned(),
        },
        Package {
            path: "frontend/payroll_flow/package.json".to_owned(),
            package_type: PackageType::Javascript,
            owner: "Payroll".to_owned(),
        },
    ];
    let ownership = Ownership::build(project(vec![unannotated_file()], packages, vec![build_payroll_team()], vec![]));
    assert_eq!(
        ownership.generate_file(),
        with_disclaimer(vec![
            "# Annotations at the top of file",
            "",
            "# Team-specific owned globs",
            "",
            "# Owner metadata key in package.yml",
            "/packs/payroll_package/**/** @Payroll-Eng",
            "",
            "# Owner metadata key in package.json",
            "/frontend/payroll_flow/**/** @Payroll-Eng",
            "",
            "# Team YML ownership",
            "/config/teams/payroll.yml @Payroll-Eng",
            "",
            "# Team owned gems",
            "",
            "# Owner in .codeowner",
            "",
        ])
    );
}

#[test]
fn test_team_owned_gems() {
    let mut team = build_payroll_team();
    team.owned_gems = vec!["payroll_calculator".to_owned()];
    let gems = vec![VendoredGem {
        path: "components/payroll_calculator".to_owned(),
        name: "payroll_calculator".to_owned(),
    }];
    let ownership = Ownership::build(project(vec![unannotated_file()], vec![], vec![team], gems));
    assert_eq!(
        ownership.generate_file(),
        with_disclaimer(vec![
            "# Annotations at the top of file",
            "",
            "# Team-specific owned globs",
            "",
            "# Owner metadata key in package.yml",
            "",
            "# Owner metadata key in package.json",
            "",
            "# Team YML ownership",
            "/config/teams/payroll.yml @Payroll-Eng",
            "",
            "# Team owned gems",
            "/components/payroll_calculator/**/** @Payroll-Eng",
            "",
            "# Owner in .codeowner",
            "",
        ])
    );
}

#[test]
fn generated_lines_are_sorted_without_repetition() {
    let mut team = build_payroll_team();
    team.owned_globs = vec!["packs/zeta/**".to_owned(), "packs/alpha/**".to_owned(), "packs/zeta/**".to_owned()];
    let ownership = Ownership::build(project(vec![], vec![], vec![team], vec![]));
    let text = ownership.generate_file();
    assert!(text.contains("# Team-specific owned globs\n/packs/alpha/** @Payroll-Eng\n/packs/zeta/** @Payroll-Eng\n\n"));
}

#[test]
fn avoided_teams_are_commented_out() {
    let mut team = build_payroll_team();
    team.avoid_ownership = true;
    let ownership = Ownership::build(project(vec![], vec![], vec![team], vec![]));
    assert!(ownership.generate_file().contains("# Team YML ownership\n# /config/teams/payroll.yml @Payroll-Eng\n"));
}

fn section(heading: &str, globs: Vec<&str>) -> TeamOwnership {
    TeamOwnership { heading: heading.to_string(), globs: globs.iter().map(|g| g.to_string()).collect() }
}

#[test]
fn ownership_test_parse_for_team_trims_header() {
    let file = "# STOP! - DO NOT EDIT THIS FILE MANUALLY\n# This file was automatically generated by \"bin/codeownership validate\".\n#\n# CODEOWNERS is used for GitHub to suggest code/file owners to various GitHub\n# teams. This is useful when developers create Pull Requests since the\n# code/file owner is notified. Reference GitHub docs for more details:\n# https://help.github.com/en/articles/about-code-owners\n\n\n";
    let team_ownership = parse_for_team("@Bar".to_string(), file).unwrap();
    assert!(team_ownership.is_empty());
}

#[test]
fn ownership_test_parse_for_team_includes_owned_globs() {
    let file = "# First Section\n/path/to/owned @Foo\n/path/to/not/owned @Bar\n\n# Last Section\n/another/owned/path @Foo\n";
    let team_ownership = parse_for_team("@Foo".to_string(), file).unwrap();
    assert_eq!(
        team_ownership,
        vec![section("# First Section", vec!["/path/to/owned"]), section("# Last Section", vec!["/another/owned/path"])]
    );
}

#[test]
fn ownership_test_parse_for_team_with_partial_team_match() {
    let file = "# First Section\n/path/to/owned @Foo\n/path/to/not/owned @FooBar\n";
    let team_ownership = parse_for_team("@Foo".to_string(), file).unwrap();
    assert_eq!(team_ownership, vec![section("# First Section", vec!["/path/to/owned"])]);
}

#[test]
fn ownership_test_parse_for_team_with_trailing_newlines() {
    let file = "# First Section\n/path/to/owned @Foo\n\n# Last Section\n/another/owned/path @Foo\n\n\n\n";
    let team_ownership = parse_for_team("@Foo".to_string(), file).unwrap();
    assert_eq!(
        team_ownership,
        vec![section("# First Section", vec!["/path/to/owned"]), section("# Last Section", vec!["/another/owned/path"])]
    );
}

#[test]
fn ownership_test_parse_for_team_without_trailing_newline() {
    let file = "# First Section\n/path/to/owned @Foo";
    let team_ownership = parse_for_team("@Foo".to_string(), file).unwrap();
    assert_eq!(team_ownership, vec![section("# First Section", vec!["/path/to/owned"])]);
}

#[test]
fn ownership_test_parse_for_team_with_missing_section_header() {
    let file = "# First Section\n/path/to/owned @Foo\n\n/another/owned/path @Foo\n";
    let team_ownership = parse_for_team("@Foo".to_string(), file);
    assert!(team_ownership.is_err_and(|e| e == OUT_OF_DATE));
}

#[test]
fn ownership_test_parse_for_team_with_malformed_team_line() {
    let file = "# First Section\n@Foo\n";
    let team_ownership = parse_for_team("@Foo".to_string(), file);
    assert!(team_ownership.is_err_and(|e| e == OUT_OF_DATE));
}

#[test]
fn ownership_test_parse_for_team_with_invalid_file() {
    let file = "# First Section\n# Second Section\npath/to/owned @Foo\n";
    let team_ownership = parse_for_team("@Foo".to_string(), file).unwrap();
    assert_eq!(
        team_ownership,
        vec![section("# First Section", vec![]), section("# Second Section", vec!["path/to/owned"])]
    );
}

#[test]
fn codeowners_file_parser_test_parse_for_team_trims_header() {
    let file = "# STOP! - DO NOT EDIT THIS FILE MANUALLY\n# This file was automatically generated by \"bin/codeownership validate\".\n#\n# CODEOWNERS is used for GitHub to suggest code/file owners to various GitHub\n# teams. This is useful when developers create Pull Requests since the\n# code/file owner is notified. Reference GitHub docs for more details:\n# https://help.github.com/en/articles/about-code-owners\n\n\n";
    let team_ownership = codeowners_file_parser::parse_for_team("@Bar".to_string(), file).unwrap();
    assert!(team_ownership.is_empty());
}

#[test]
fn codeowners_file_parser_test_parse_for_team_includes_owned_globs() {
    let file = "# First Section\n/path/to/owned @Foo\n/path/to/not/owned @Bar\n\n# Last Section\n/another/owned/path @Foo\n";
    let team_ownership = codeowners_file_parser::parse_for_team("@Foo".to_string(), file).unwrap();
    assert_eq!(
        team_ownership,
        vec![section("# First Section", vec!["/path/to/owned"]), section("# Last Section", vec!["/another/owned/path"])]
    );
}

#[test]
fn codeowners_file_parser_test_parse_for_team_with_partial_team_match() {
    let file = "# First Section\n/path/to/owned @Foo\n/path/to/not/owned @FooBar\n";
    let team_ownership = codeowners_file_parser::parse_for_team("@Foo".to_string(), file).unwrap();
    assert_eq!(team_ownership, vec![section("# First Section", vec!["/path/to/owned"])]);
}

#[test]
fn codeowners_file_parser_test_parse_for_team_with_trailing_newlines() {
    let file = "# First Section\n/path/to/owned @Foo\n\n# Last Section\n/another/owned/path @Foo\n\n\n\n";
    let team_ownership = codeowners_file_parser::parse_for_team("@Foo".to_string(), file).unwrap();
    assert_eq!(
        team_ownership,
        vec![section("# First Section", vec!["/path/to/owned"]), section("# Last Section", vec!["/another/owned/path"])]
    );
}

#[test]
fn codeowners_file_parser_test_parse_for_team_without_trailing_newline() {
    let file = "# First Section\n/path/to/owned @Foo";
    let team_ownership = codeowners_file_parser::parse_for_team("@Foo".to_string(), file).unwrap();
    assert_eq!(team_ownership, vec![section("# First Section", vec!["/path/to/owned"])]);
}

#[test]
fn codeowners_file_parser_test_parse_for_team_with_missing_section_header() {
    let file = "# First Section\n/path/to/owned @Foo\n\n/another/owned/path @Foo\n";
    let team_ownership = codeowners_file_parser::parse_for_team("@Foo".to_string(), file);
    assert!(team_ownership.is_err_and(|e| e == OUT_OF_DATE));
}

#[test]
fn codeowners_file_parser_test_parse_for_team_with_malformed_team_line() {
    let file = "# First Section\n@Foo\n";
    let team_ownership = codeowners_file_parser::parse_for_team("@Foo".to_string(), file);
    assert!(team_ownership.is_err_and(|e| e == OUT_OF_DATE));
}

#[test]
fn codeowners_file_parser_test_parse_for_team_with_invalid_file() {
    let file = "# First Section\n# Second Section\npath/to/owned @Foo\n";
    let team_ownership = codeowners_file_parser::parse_for_team("@Foo".to_string(), file).unwrap();
    assert_eq!(
        team_ownership,
        vec![section("# First Section", vec![]), section("# Second Section", vec!["path/to/owned"])]
    );
}

#[test]
fn test_stripped_lines_by_priority() {
    let file = "# First Section\n/path/to/owned @Foo\n";
    assert_eq!(stripped_lines_by_priority(file), vec!["/path/to/owned @Foo"]);
}

#[test]
fn test_stripped_lines_by_priority_with_multiple_sections() {
    let file = "# First Section\n/path/to/owned @Foo\n\n# Second Section\n/another/path/to/owned @Bar\n";
    assert_eq!(stripped_lines_by_priority(file), vec!["/another/path/to/owned @Bar", "/path/to/owned @Foo"]);
}

#[test]
fn test_stripped_lines_by_priority_with_ignored_teams() {
    let file = with_disclaimer(vec![
        "# Annotations at the top of file",
        "# /app/assets/config/manifest.js @Prefix/team-foo",
        "# /config/application.rb @Prefix/team-bar",
        "/config/i18n-tasks.yml.erb @Prefix/language-team",
        "",
        "# Team-specific owned globs",
        "# /.github/workflows/pull-translations.yml @Prefix/infra",
        "# /.github/workflows/push-sources.yml @Prefix/infra",
        "# /Dockerfile @Prefix/docker-team",
        "# /components/create.rb @Prefix/component-team",
        "/.codeclimate.yml @Prefix/climate-team",
        "/.vscode/extensions/z/**/* @Prefix/zteam",
        "/bin/brakeman @Prefix/psecurity",
        "/config/brakeman.ignore @Prefix/security",
        "",
    ]);
    let sections = codeowner_sections(&file).unwrap();
    assert_eq!(
        sections,
        vec![
            Section {
                heading: "# Annotations at the top of file".to_string(),
                lines: vec![
                    "/app/assets/config/manifest.js @Prefix/team-foo".to_string(),
                    "/config/application.rb @Prefix/team-bar".to_string(),
                    "/config/i18n-tasks.yml.erb @Prefix/language-team".to_string()
                ]
            },
            Section {
                heading: "# Team-specific owned globs".to_string(),
                lines: vec![
                    "/.codeclimate.yml @Prefix/climate-team".to_string(),
                    "/.github/workflows/pull-translations.yml @Prefix/infra".to_string(),
                    "/.github/workflows/push-sources.yml @Prefix/infra".to_string(),
                    "/.vscode/extensions/z/**/* @Prefix/zteam".to_string(),
                    "/Dockerfile @Prefix/docker-team".to_string(),
                    "/bin/brakeman @Prefix/psecurity".to_string(),
                    "/components/create.rb @Prefix/component-team".to_string(),
                    "/config/brakeman.ignore @Prefix/security".to_string()
                ]
            },
        ]
    );
    assert_eq!(
        stripped_lines_by_priority(&file),
        vec![
            "/config/brakeman.ignore @Prefix/security",
            "/components/create.rb @Prefix/component-team",
            "/bin/brakeman @Prefix/psecurity",
            "/Dockerfile @Prefix/docker-team",
            "/.vscode/extensions/z/**/* @Prefix/zteam",
            "/.github/workflows/push-sources.yml @Prefix/infra",
            "/.github/workflows/pull-translations.yml @Prefix/infra",
            "/.codeclimate.yml @Prefix/climate-team",
            "/config/i18n-tasks.yml.erb @Prefix/language-team",
            "/config/application.rb @Prefix/team-bar",
            "/app/assets/config/manifest.js @Prefix/team-foo"
        ]
    );
}

fn payroll_and_ux_teams() -> Vec<Team> {
    let mut ux = build_payroll_team();
    ux.name = "UX".to_owned();
    ux.github_team = "@UX".to_owned();
    ux.path = "config/teams/ux.yml".to_owned();
    vec![build_payroll_team(), ux]
}

fn parser() -> Parser {
    Parser {
        project_root: "/proj".to_owned(),
        codeowners_file_path: "/proj/.github/CODEOWNERS".to_owned(),
        team_file_globs: vec!["config/teams/**/*.yml".to_owned()],
    }
}

#[test]
fn teams_from_files_paths_takes_the_line_of_highest_priority() {
    let file = "# Team-specific owned globs\n/packs/payroll/** @Payroll-Eng\n/packs/payroll/ux/** @UX\n";
    let lines = stripped_lines_by_priority(file);
    let teams = payroll_and_ux_teams();
    let found = parser()
        .teams_from_files_paths(
            &vec!["packs/payroll/ux/a.rb".to_owned(), "/packs/payroll/b.rb".to_owned(), "lib/c.rb".to_owned()],
            &lines,
            &teams,
        )
        .unwrap();
    assert_eq!(found.len(), 3);
    assert_eq!(found[0].0, "packs/payroll/ux/a.rb");
    assert_eq!(found[0].1.as_ref().unwrap().name, "UX");
    assert_eq!(found[1].1.as_ref().unwrap().name, "Payroll");
    assert!(found[2].1.is_none());
}

#[test]
fn teams_from_files_paths_refuses_a_line_without_space() {
    let teams = payroll_and_ux_teams();
    let result = parser().teams_from_files_paths(&vec!["a.rb".to_owned()], &vec!["/packs/**".to_owned()], &teams);
    assert_eq!(result.unwrap_err(), "Invalid line");
    let empty = parser().teams_from_files_paths(&vec![], &vec!["/packs/**".to_owned()], &teams).unwrap();
    assert!(empty.is_empty());
}

#[test]
fn absolute_team_files_globs_are_under_the_root() {
    assert_eq!(parser().absolute_team_files_globs(), vec!["/proj/config/teams/**/*.yml".to_owned()]);
}

#[test]
fn team_for_file_from_codeowners_takes_absolute_paths_relative_to_the_root() {
    let lines = vec!["/packs/payroll/** @Payroll-Eng".to_owned()];
    let teams = payroll_and_ux_teams();
    let globs = vec!["config/teams/**/*.yml".to_owned()];
    let team = team_for_file_from_codeowners("/proj", "/proj/.github/CODEOWNERS", &globs, "/proj/packs/payroll/a.rb", &lines, &teams)
        .unwrap();
    assert_eq!(team.unwrap().name, "Payroll");
    let all = teams_for_files_from_codeowners(
        "/proj",
        "/proj/.github/CODEOWNERS",
        &globs,
        &vec!["/proj/packs/payroll/a.rb".to_owned(), "lib/b.rb".to_owned()],
        &lines,
        &teams,
    )
    .unwrap();
    assert_eq!(all[0].0, "packs/payroll/a.rb");
    assert!(all[0].1.is_some());
    assert!(all[1].1.is_none());
}

#[test]
fn test_unignore_regex() {
    assert_eq!(stripped_lines_by_priority("# Section\n# /path/to/owned\n"), vec!["/path/to/owned"]);
}

#[test]
fn teams_from_files_paths_gives_each_path_once() {
    let file = "# Team-specific owned globs\n/packs/payroll/** @Payroll-Eng\n";
    let lines = stripped_lines_by_priority(file);
    let teams = payroll_and_ux_teams();
    let found = parser()
        .teams_from_files_paths(
            &vec!["packs/payroll/a.rb".to_owned(), "lib/c.rb".to_owned(), "packs/payroll/a.rb".to_owned()],
            &lines,
            &teams,
        )
        .unwrap();
    assert_eq!(found.len(), 2);
    assert_eq!(found[0].0, "packs/payroll/a.rb");
    assert_eq!(found[0].1.as_ref().unwrap().name, "Payroll");
    assert_eq!(found[1].0, "lib/c.rb");
    assert!(found[1].1.is_none());
}
