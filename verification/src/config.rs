//! The project's configuration, and the values its optional keys take when
//! they are left out.
use vstd::prelude::*;

use crate::path::view_strings;
use crate::text::to_owned_string;

verus! {

/// Where the files, packages, teams and vendored gems of a project are found.
#[derive(Debug, Clone)]
pub struct Config {
    pub owned_globs: Vec<String>,
    pub ruby_package_paths: Vec<String>,
    pub javascript_package_paths: Vec<String>,
    pub team_file_glob: Vec<String>,
    pub unowned_globs: Vec<String>,
    pub vendored_gems_path: String,
    pub cache_directory: String,
    pub ignore_dirs: Vec<String>,
    pub executable_name: String,
}

pub struct ConfigView {
    pub owned_globs: Seq<Seq<char>>,
    pub ruby_package_paths: Seq<Seq<char>>,
    pub javascript_package_paths: Seq<Seq<char>>,
    pub team_file_glob: Seq<Seq<char>>,
    pub unowned_globs: Seq<Seq<char>>,
    pub vendored_gems_path: Seq<char>,
    pub cache_directory: Seq<char>,
    pub ignore_dirs: Seq<Seq<char>>,
    pub executable_name: Seq<char>,
}

impl View for Config {
    type V = ConfigView;

    open spec fn view(&self) -> ConfigView {
        ConfigView {
            owned_globs: view_strings(self.owned_globs@),
            ruby_package_paths: view_strings(self.ruby_package_paths@),
            javascript_package_paths: view_strings(self.javascript_package_paths@),
            team_file_glob: view_strings(self.team_file_glob@),
            unowned_globs: view_strings(self.unowned_globs@),
            vendored_gems_path: self.vendored_gems_path@,
            cache_directory: self.cache_directory@,
            ignore_dirs: view_strings(self.ignore_dirs@),
            executable_name: self.executable_name@,
        }
    }
}

/// The ruby package paths of a configuration file, alone.
#[derive(Debug)]
pub struct RubyPackageConfig {
    pub ruby_package_paths: Vec<String>,
}

/// Where ruby packages are looked for when the key is left out.
pub fn ruby_package_paths() -> (r: Vec<String>)
    ensures
        view_strings(r@) == seq!["packs/**/*"@, "components/**"@],
{
    let mut r: Vec<String> = Vec::new();
    r.push(to_owned_string("packs/**/*"));
    r.push(to_owned_string("components/**"));
    assert(view_strings(r@) =~= seq!["packs/**/*"@, "components/**"@]);
    r
}

/// Where team files are looked for when the key is left out.
pub fn team_file_glob() -> (r: Vec<String>)
    ensures
        view_strings(r@) == seq!["config/teams/**/*.yml"@],
{
    let mut r: Vec<String> = Vec::new();
    r.push(to_owned_string("config/teams/**/*.yml"));
    assert(view_strings(r@) =~= seq!["config/teams/**/*.yml"@]);
    r
}

/// Where the cache is kept when the key is left out.
pub fn default_cache_directory() -> (r: String)
    ensures
        r@ == "tmp/cache/codeowners"@,
{
    to_owned_string("tmp/cache/codeowners")
}

/// Where javascript packages are looked for when the key is left out.
pub fn javascript_package_paths() -> (r: Vec<String>)
    ensures
        view_strings(r@) == seq!["frontend/**/*"@],
{
    let mut r: Vec<String> = Vec::new();
    r.push(to_owned_string("frontend/**/*"));
    assert(view_strings(r@) =~= seq!["frontend/**/*"@]);
    r
}

/// What nobody owns when the key is left out.
pub fn unowned_globs() -> (r: Vec<String>)
    ensures
        view_strings(r@) == seq![
            "frontend/**/node_modules/**/*"@,
            "frontend/**/__generated__/**/*"@,
        ],
{
    let mut r: Vec<String> = Vec::new();
    r.push(to_owned_string("frontend/**/node_modules/**/*"));
    r.push(to_owned_string("frontend/**/__generated__/**/*"));
    assert(view_strings(r@) =~= seq![
        "frontend/**/node_modules/**/*"@,
        "frontend/**/__generated__/**/*"@,
    ]);
    r
}

/// Where vendored gems live when the key is left out.
pub fn vendored_gems_path() -> (r: String)
    ensures
        r@ == "vendored/"@,
{
    to_owned_string("vendored/")
}

/// The command named in messages when the key is left out.
pub fn default_executable_name() -> (r: String)
    ensures
        r@ == "codeowners"@,
{
    to_owned_string("codeowners")
}

/// The top-level directories that are not walked when the key is left out.
pub open spec fn default_ignore_dirs_spec() -> Seq<Seq<char>> {
    seq![
        ".cursor"@,
        ".git"@,
        ".idea"@,
        ".vscode"@,
        ".yarn"@,
        "ar_doc"@,
        "db"@,
        "helm"@,
        "log"@,
        "node_modules"@,
        "sorbet"@,
        "tmp"@,
    ]
}

/// The top-level directories that are not walked when the key is left out.
pub fn default_ignore_dirs() -> (r: Vec<String>)
    ensures
        view_strings(r@) == default_ignore_dirs_spec(),
{
    let mut r: Vec<String> = Vec::new();
    r.push(to_owned_string(".cursor"));
    r.push(to_owned_string(".git"));
    r.push(to_owned_string(".idea"));
    r.push(to_owned_string(".vscode"));
    r.push(to_owned_string(".yarn"));
    r.push(to_owned_string("ar_doc"));
    r.push(to_owned_string("db"));
    r.push(to_owned_string("helm"));
    r.push(to_owned_string("log"));
    r.push(to_owned_string("node_modules"));
    r.push(to_owned_string("sorbet"));
    r.push(to_owned_string("tmp"));
    assert(view_strings(r@) =~= default_ignore_dirs_spec());
    r
}

} // verus!
