use codeowners::config::Config;
use codeowners::ignore::{matches_path, try_matches_path};
use codeowners::ownership::for_file_fast::vendored_gem_owner;
use codeowners::globs::glob_list_matches;
use codeowners::ownership::mapper::{OwnerMatcher, Source};
use codeowners::path_utils::{absolute_clean_path, relative_to, relative_to_buf};
use codeowners::project::Team;
use codeowners::project_file_builder::team_from_first_line;
use codeowners::runner::version;

fn build_config_for_temp(frontend_glob: &str, ruby_glob: &str, vendored_path: &str) -> Config {
    Config {
        owned_globs: vec!["**/*".to_string()],
        ruby_package_paths: vec![ruby_glob.to_string()],
        javascript_package_paths: vec![frontend_glob.to_string()],
        team_file_glob: vec!["config/teams/**/*.yml".to_string()],
        unowned_globs: vec![],
        vendored_gems_path: vendored_path.to_string(),
        cache_directory: "tmp/cache/codeowners".to_string(),
        ignore_dirs: vec![],
        executable_name: "codeowners".to_string(),
    }
}

fn team_named(name: &str) -> Team {
    Team {
        path: "config/teams/foo.yml".to_string(),
        name: name.to_string(),
        github_team: format!("@{}Team", name),
        owned_globs: vec![],
        subtracted_globs: vec![],
        owned_gems: vec![],
        avoid_ownership: false,
    }
}

#[test]
fn test_matches_path() {
    assert!(matches_path(&vec!["**/*.rs".to_string()], "src/main.rs"));
    assert!(matches_path(&vec!["src/**".to_string()], "src/main.rs"));
}

#[test]
fn matches_path_is_false_when_no_rule_matches() {
    assert!(!matches_path(&vec!["lib/**".to_string(), "*.md".to_string()], "src/main.rs"));
}

#[test]
fn try_matches_path_refuses_an_invalid_rule_before_a_match() {
    assert_eq!(try_matches_path(&vec!["[".to_string(), "src/**".to_string()], "src/main.rs"), None);
    assert_eq!(
        try_matches_path(&vec!["src/**".to_string(), "[".to_string()], "src/main.rs"),
        Some(true)
    );
    assert_eq!(try_matches_path(&vec!["lib/**".to_string()], "src/main.rs"), Some(false));
}

#[test]
fn test_vendored_gem_owner() {
    let config = build_config_for_temp("frontend/**/*", "packs/**/*", "vendored");
    let mut teams: Vec<Team> = vec![team_named("Payroll")];
    teams[0].owned_gems = vec!["awesome_gem".to_string()];
    let result = vendored_gem_owner("vendored/awesome_gem/lib/a.rb", &config, &teams).unwrap();
    assert_eq!(result.0, "Payroll");
    assert!(matches!(result.1, Source::TeamGem));
}

#[test]
fn vendored_gem_owner_needs_the_vendored_path_first() {
    let config = build_config_for_temp("frontend/**/*", "packs/**/*", "vendored");
    let mut teams: Vec<Team> = vec![team_named("Payroll")];
    teams[0].owned_gems = vec!["awesome_gem".to_string()];
    assert!(vendored_gem_owner("lib/awesome_gem/a.rb", &config, &teams).is_none());
    assert!(vendored_gem_owner("vendored", &config, &teams).is_none());
    assert!(vendored_gem_owner("vendored/other_gem/a.rb", &config, &teams).is_none());
}

#[test]
fn display_source() {
    assert_eq!(Source::Directory("packs/bam".to_string()).to_text(), "Owner specified in `packs/bam/.codeowner`");
    assert_eq!(Source::AnnotatedFile.to_text(), "Owner annotation at the top of the file");
    assert_eq!(Source::TeamGem.to_text(), "Owner specified in Team YML's `owned_gems`");
    assert_eq!(
        Source::TeamGlob("a/glob/**".to_string()).to_text(),
        "Owner specified in Team YML as an owned_glob `a/glob/**`"
    );
    assert_eq!(
        Source::Package("packs/bam/packag.yml".to_string(), "packs/bam/**/**".to_string()).to_text(),
        "Owner defined in `packs/bam/packag.yml` with implicity owned glob: `packs/bam/**/**`"
    );
    assert_eq!(Source::TeamYml.to_text(), "Teams own their configuration files");
}

#[test]
fn relative_to_returns_relative_when_under_root() {
    let rel = relative_to("/a/b", "/a/b/c/d.txt");
    assert_eq!(rel, "c/d.txt");
}

#[test]
fn relative_to_returns_input_when_not_under_root() {
    let path = "/x/y/z.txt";
    let rel = relative_to("/a/b", path);
    assert_eq!(rel, path);
}

#[test]
fn relative_to_handles_equal_paths() {
    let rel = relative_to("/a/b", "/a/b");
    assert_eq!(rel, "");
}

#[test]
fn relative_to_buf_matches_relative_to() {
    let rel_ref = relative_to("/proj", "/proj/src/lib.rs");
    let rel_buf = relative_to_buf("/proj", "/proj/src/lib.rs");
    assert_eq!(rel_ref, rel_buf);
}

#[test]
fn test_team_regex() {
    let cases = vec![
        ("// @team Foo", "Foo"),
        ("// @team Foo Bar", "Foo Bar"),
        ("// @team Zoo", "Zoo"),
        ("// @team: Zoo Foo", "Zoo Foo"),
        ("# @team: Bap", "Bap"),
        ("# @team: Bap Hap", "Bap Hap"),
        ("<!-- @team: Zoink -->", "Zoink"),
        ("<!-- @team: Zoink Err -->", "Zoink Err"),
        ("<%# @team: Zap %>", "Zap"),
        ("<%# @team: Zap Zip%>", "Zap Zip"),
        ("<!-- @team Blast -->", "Blast"),
        ("<!-- @team Blast Off -->", "Blast Off"),
        ("# team: MyTeam", "MyTeam"),
        ("// team: MyTeam", "MyTeam"),
        ("<!-- team: MyTeam -->", "MyTeam"),
        ("<%# team: MyTeam %>", "MyTeam"),
    ];
    for (key, value) in cases {
        let owner = team_from_first_line(key);
        assert_eq!(owner, Some(value.to_string()));
    }
}

#[test]
fn team_regex_ignores_plain_lines_and_trailing_space() {
    assert_eq!(team_from_first_line("class Foo"), None);
    assert_eq!(team_from_first_line("# just a comment"), None);
    assert_eq!(team_from_first_line("# @team Payroll  \r\n"), Some("Payroll".to_string()));
}

#[test]
fn test_version() {
    assert_eq!(version(), "0.1.0".to_string());
}

#[test]
fn absolute_clean_path_removes_dot_components() {
    assert_eq!(absolute_clean_path("/proj", "./config/../.github/CODEOWNERS"), "/proj/.github/CODEOWNERS");
    assert_eq!(absolute_clean_path("/proj", "config/code_ownership.yml"), "/proj/config/code_ownership.yml");
}

fn assert_owner_for(glob: &str, subtracted_globs: &[&str], relative_path: &str, expect_match: bool) {
    let source = Source::Directory("packs/bam".to_string());
    let team_name = "team1".to_string();
    let owner_matcher = OwnerMatcher::new_glob_with_candidate_subtracted_globs(
        glob.to_string(),
        &subtracted_globs.iter().map(|s| s.to_string()).collect::<Vec<String>>(),
        team_name.clone(),
        source.clone(),
    );
    let response = owner_matcher.owner_for(relative_path);
    if expect_match {
        assert_eq!(response, (Some(&team_name), &source));
    } else {
        assert_eq!(response, (None, &source));
    }
}

#[test]
fn owner_for_without_brackets_in_glob() {
    assert_owner_for("packs/bam/**/**", &[], "packs/bam/app/components/sidebar.jsx", true);
    assert_owner_for("packs/bam/**/**", &[], "packs/baz/app/components/sidebar.jsx", false);
    assert_owner_for("packs/bam/**/**", &[], "packs/bam/app/[components]/gadgets/sidebar.jsx", true);
    assert_owner_for("packs/bam/**/**", &[], "packs/bam/app/sidebar_[component].jsx", true);
    assert_owner_for(
        "packs/bam/**/**",
        &["packs/bam/app/excluded/**"],
        "packs/bam/app/excluded/sidebar_[component].jsx",
        false,
    );
}

#[test]
fn subtracted_globs() {
    assert_owner_for("packs/bam/**/**", &["packs/bam/app/excluded/**"], "packs/bam/app/excluded/some_file.rb", false);
    assert_owner_for("packs/bam/**/**", &["packs/bam/app/excluded/**"], "packs/bam/app/not_excluded/some_file.rb", true);
}

#[test]
fn owner_for_with_brackets_in_glob() {
    assert_owner_for("packs/bam/app/\\[components\\]/**/**", &[], "packs/bam/app/[components]/gadgets/sidebar.jsx", true);
    assert_owner_for("packs/\\[bam\\]/**/**", &[], "packs/[bam]/app/components/sidebar.jsx", true);
}

#[test]
fn owner_for_with_multiple_brackets_in_glob() {
    assert_owner_for(
        "packs/\\[bam\\]/bar/\\[foo\\]/**/**",
        &[],
        "packs/[bam]/bar/[foo]/app/components/sidebar.jsx",
        true,
    );
}

fn assert_new_glob_with_candidate_subtracted_globs(
    glob: &str,
    candidate_subtracted_globs: &[&str],
    expected_subtracted_globs: &[&str],
) {
    let owner_matcher = OwnerMatcher::new_glob_with_candidate_subtracted_globs(
        glob.to_string(),
        &candidate_subtracted_globs.iter().map(|s| s.to_string()).collect::<Vec<String>>(),
        "team1".to_string(),
        Source::TeamGlob(glob.to_string()),
    );
    if let OwnerMatcher::Glob { subtracted_globs, .. } = owner_matcher {
        assert_eq!(subtracted_globs, expected_subtracted_globs);
    } else {
        panic!("Expected a Glob matcher");
    }
}

#[test]
fn test_new_glob_with_candidate_subtracted_globs() {
    assert_new_glob_with_candidate_subtracted_globs("packs/bam/**/**", &[], &[]);
    assert_new_glob_with_candidate_subtracted_globs("packs/bam/**/**", &["packs/bam/app/**/**"], &["packs/bam/app/**/**"]);
    assert_new_glob_with_candidate_subtracted_globs(
        "packs/bam/**/**",
        &["packs/bam/app/an/exceptional/path/it.rb"],
        &["packs/bam/app/an/exceptional/path/it.rb"],
    );
    assert_new_glob_with_candidate_subtracted_globs("packs/bam/**/**", &["packs/bam.rb"], &[]);
    assert_new_glob_with_candidate_subtracted_globs("packs/bam/**/**", &["packs/nope/app/**/**"], &[]);
    assert_new_glob_with_candidate_subtracted_globs("packs/**", &["packs/yep/app/**/**"], &["packs/yep/app/**/**"]);
    assert_new_glob_with_candidate_subtracted_globs("packs/foo.yml", &["packs/foo/**/**"], &[]);
}

const OWNED_GLOB: &str = "{app,components,config,frontend,lib,packs,spec,danger,script}/**/*.{rb,arb,erb,rake,js,jsx,ts,tsx}";

#[test]
fn test_matches_globs() {
    assert!(glob_list_matches("script/.eslintrc.js", &vec![OWNED_GLOB.to_string()]));
}

#[test]
fn test_glob_match() {
    assert!(glob_list_matches("script/.eslintrc.js", &vec![OWNED_GLOB.to_string()]));
}

#[test]
fn relative_to_leaves_out_current_directory_pieces() {
    assert_eq!(relative_to("/r", "/r/./x"), "x");
    assert_eq!(relative_to("/r/.", "/r/a/./b/."), "a/b");
    assert_eq!(codeowners::path::path_components("./a/./b").len(), 3);
    assert_eq!(codeowners::path::parent("a/b/."), Some("a".to_string()));
}

#[test]
fn absolute_clean_path_follows_the_cleaning_rules() {
    assert_eq!(absolute_clean_path("/proj", "a/../b/./c"), "/proj/b/c");
    assert_eq!(absolute_clean_path("/proj", "../../x"), "/x");
    assert_eq!(absolute_clean_path("", "hello/world/.."), "hello");
    assert_eq!(absolute_clean_path("", ""), ".");
    assert_eq!(absolute_clean_path("", "../a"), "../a");
    assert_eq!(absolute_clean_path("", "/test/../path/"), "/path");
    assert_eq!(absolute_clean_path("", "path//to///thing"), "path/to/thing");
}

#[test]
fn team_regex_reads_every_plain_annotation_form() {
    for (line, team) in [
        ("# @team Bap", "Bap"),
        ("# @team: Bap", "Bap"),
        ("// @team Pay_Roll2", "Pay_Roll2"),
        ("// @team: Pay_Roll2", "Pay_Roll2"),
        ("<!-- @team Foo", "Foo"),
        ("<!-- @team: Foo", "Foo"),
        ("<%# @team Bar", "Bar"),
        ("<%# @team: Bar", "Bar"),
    ] {
        assert_eq!(team_from_first_line(line), Some(team.to_string()), "{}", line);
    }
}
