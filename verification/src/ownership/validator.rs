//! The checks that `validate` runs on a project: teams that do not exist,
//! files without an owner, files that two team files claim, and a
//! CODEOWNERS file that differs from the one the project calls for.
use vstd::prelude::*;

use crate::project::{
    project_wf, relative_spec, teams_by_name_spec, Package, PackageView, Project,
    ProjectFileView, ProjectView,
};
use crate::sort::{sort_texts, sorted_set, sorted_unique, stable_sorted};
use crate::text::{concat, join, join_spec, push_str, str_eq, text_le, to_owned_string};

use super::file_generator::{generated_file_spec, FileGenerator};
use super::file_owner_finder::{
    copy_sources, find_spec, order_owners_by_lower_name, owners_by_lower_name, FileOwnerFinder,
    Owner, OwnerView,
};
use super::mapper::team_file_mapper::{annotated_entry, annotated_pair};
use super::mapper::team_gem_mapper::{gem_entries_of, gem_entry, gem_matcher, gem_matchers_of};
use super::mapper::team_glob_mapper::lemma_flatten_alt_push;
use super::mapper::team_yml_mapper::team_yml_entry;
use crate::project::{gems_by_name_spec, TeamView};
use super::mapper::{source_text, OwnerMatcher, OwnerMatcherView, Source, SourceView};
use super::{all_matchers_spec, all_owner_matchers};

verus! {

/// A problem that validation finds.
#[derive(Debug)]
pub enum Error {
    InvalidTeam { name: String, path: String },
    FileWithoutOwner { path: String },
    MultipleTeamYmls { path: String, owners: Vec<Owner> },
    CodeownershipFileIsStale { executable_name: String },
}

pub enum ErrorView {
    InvalidTeam { name: Seq<char>, path: Seq<char> },
    FileWithoutOwner { path: Seq<char> },
    MultipleTeamYmls { path: Seq<char>, owners: Seq<OwnerView> },
    CodeownershipFileIsStale { executable_name: Seq<char> },
}

impl View for Error {
    type V = ErrorView;

    open spec fn view(&self) -> ErrorView {
        match self {
            Error::InvalidTeam { name, path } => ErrorView::InvalidTeam { name: name@, path: path@ },
            Error::FileWithoutOwner { path } => ErrorView::FileWithoutOwner { path: path@ },
            Error::MultipleTeamYmls { path, owners } => ErrorView::MultipleTeamYmls {
                path: path@,
                owners: owners@.map_values(|o: Owner| o@),
            },
            Error::CodeownershipFileIsStale { executable_name } => {
                ErrorView::CodeownershipFileIsStale { executable_name: executable_name@ }
            },
        }
    }
}

/// The problems found, in the order of the checks.
#[derive(Debug)]
pub struct Errors(pub Vec<Error>);

impl View for Errors {
    type V = Seq<ErrorView>;

    open spec fn view(&self) -> Seq<ErrorView> {
        self.0@.map_values(|e: Error| e@)
    }
}

/// The heading under which a problem is reported.
pub open spec fn category_spec(e: ErrorView) -> Seq<char> {
    match e {
        ErrorView::FileWithoutOwner { .. } => "Some files are missing ownership"@,
        ErrorView::MultipleTeamYmls { .. } => "Team yml file globs should not overlap"@,
        ErrorView::CodeownershipFileIsStale { executable_name } => "CODEOWNERS out of date. Run `"@
            + executable_name + " generate` to update the CODEOWNERS file"@,
        ErrorView::InvalidTeam { .. } => "Found invalid team annotations"@,
    }
}

/// The lines that describe one owner of a file that two team files claim.
pub open spec fn owner_lines(o: OwnerView) -> Seq<Seq<char>> {
    seq![" owner: "@ + o.team_name] + o.sources.map_values(|s: SourceView| "  - "@ + source_text(s))
}

/// The messages of a problem.
pub open spec fn messages_spec(e: ErrorView) -> Seq<Seq<char>> {
    match e {
        ErrorView::FileWithoutOwner { path } => seq!["- "@ + path],
        ErrorView::MultipleTeamYmls { path, owners } => seq![
            join_spec(
                seq!["\n"@ + path] + owners_by_lower_name(owners).map_values(
                    |o: OwnerView| owner_lines(o),
                ).flatten_alt(),
                "\n"@,
            ),
        ],
        ErrorView::CodeownershipFileIsStale { .. } => Seq::empty(),
        ErrorView::InvalidTeam { name, path } => seq![
            "- "@ + path + " is referencing an invalid team - '"@ + name + "'"@,
        ],
    }
}

impl Error {
    /// The heading under which the problem is reported.
    pub fn category(&self) -> (r: String)
        ensures
            r@ == category_spec(self@),
    {
        match self {
            Error::FileWithoutOwner { .. } => to_owned_string("Some files are missing ownership"),
            Error::MultipleTeamYmls { .. } => to_owned_string(
                "Team yml file globs should not overlap",
            ),
            Error::CodeownershipFileIsStale { executable_name } => {
                let mut r = to_owned_string("CODEOWNERS out of date. Run `");
                push_str(&mut r, executable_name.as_str());
                push_str(&mut r, " generate` to update the CODEOWNERS file");
                r
            },
            Error::InvalidTeam { .. } => to_owned_string("Found invalid team annotations"),
        }
    }

    /// The messages that describe the problem.
    pub fn messages(&self) -> (r: Vec<String>)
        ensures
            r@.map_values(|s: String| s@) == messages_spec(self@),
    {
        let mut r: Vec<String> = Vec::new();
        match self {
            Error::FileWithoutOwner { path } => {
                r.push(concat("- ", path.as_str()));
            },
            Error::MultipleTeamYmls { path, owners } => {
                r.push(join(&multiple_owner_lines(path, owners), "\n"));
            },
            Error::CodeownershipFileIsStale { .. } => {},
            Error::InvalidTeam { name, path } => {
                let mut m = concat("- ", path.as_str());
                push_str(&mut m, " is referencing an invalid team - '");
                push_str(&mut m, name.as_str());
                push_str(&mut m, "'");
                r.push(m);
            },
        }
        assert(r@.map_values(|s: String| s@) =~= messages_spec(self@));
        r
    }
}

/// The lines of the message about a file that two team files claim.
fn multiple_owner_lines(path: &String, owners: &Vec<Owner>) -> (r: Vec<String>)
    ensures
        r@.map_values(|s: String| s@) == seq!["\n"@ + path@] + owners_by_lower_name(
            owners@.map_values(|o: Owner| o@),
        ).map_values(|o: OwnerView| owner_lines(o)).flatten_alt(),
{
    let sorted = order_owners_by_lower_name(owners);
    let ghost sv = sorted@.map_values(|o: Owner| o@);
    let mut lines: Vec<String> = Vec::new();
    lines.push(concat("\n", path.as_str()));
    let mut i: usize = 0;
    assert(sv.take(0).map_values(|o: OwnerView| owner_lines(o)).flatten_alt() =~= Seq::<
        Seq<char>,
    >::empty());
    while i < sorted.len()
        invariant
            i <= sorted.len(),
            sv == sorted@.map_values(|o: Owner| o@),
            lines@.map_values(|s: String| s@) == seq!["\n"@ + path@] + sv.take(i as int).map_values(
                |o: OwnerView| owner_lines(o),
            ).flatten_alt(),
        decreases sorted.len() - i,
    {
        let owner = &sorted[i];
        let ghost start = lines@.map_values(|s: String| s@);
        let ghost ov = owner@;
        lines.push(concat(" owner: ", owner.team_name.as_str()));
        let mut k: usize = 0;
        while k < owner.sources.len()
            invariant
                k <= owner.sources.len(),
                ov == owner@,
                lines@.map_values(|s: String| s@) == start + seq![" owner: "@ + ov.team_name]
                    + ov.sources.take(k as int).map_values(
                    |s: SourceView| "  - "@ + source_text(s),
                ),
            decreases owner.sources.len() - k,
        {
            let ghost before = lines@;
            let text = owner.sources[k].to_text();
            lines.push(concat("  - ", text.as_str()));
            assert(ov.sources[k as int] == owner.sources@[k as int]@);
            assert(lines@.map_values(|s: String| s@) =~= before.map_values(|s: String| s@).push(
                "  - "@ + source_text(ov.sources[k as int]),
            ));
            assert(ov.sources.take(k + 1).map_values(|s: SourceView| "  - "@ + source_text(s))
                =~= ov.sources.take(k as int).map_values(|s: SourceView| "  - "@ + source_text(s)).push(
                "  - "@ + source_text(ov.sources[k as int]),
            ));
            k = k + 1;
        }
        proof {
            assert(ov.sources.take(ov.sources.len() as int) =~= ov.sources);
            assert(sv[i as int] == ov);
            let g = |o: OwnerView| owner_lines(o);
            assert(sv.take(i + 1).map_values(g) =~= sv.take(i as int).map_values(g).push(g(ov)));
            lemma_flatten_alt_push(sv.take(i as int).map_values(g), g(ov));
            assert(lines@.map_values(|s: String| s@) =~= seq!["\n"@ + path@] + sv.take(
                i + 1,
            ).map_values(g).flatten_alt());
        }
        i = i + 1;
    }
    assert(sv.take(sorted.len() as int) =~= sv);
    lines
}

/// Whether one of the owner's sources is its team's configuration file.
pub open spec fn from_team_yml(o: OwnerView) -> bool {
    exists|i: int| 0 <= i < o.sources.len() && (#[trigger] o.sources[i]) is TeamYml
}

/// The problem, if any, of a file with more than one owner, more than one of
/// them by way of a team's configuration file.
pub open spec fn multiple_team_file_owners_spec(owners: Seq<OwnerView>, path: Seq<char>) -> Option<
    ErrorView,
> {
    if owners.len() <= 1 {
        None
    } else {
        let team_file_owners = owners.filter(|o: OwnerView| from_team_yml(o));
        if team_file_owners.len() > 1 {
            Some(ErrorView::MultipleTeamYmls { path, owners: team_file_owners })
        } else {
            None
        }
    }
}

fn has_team_yml_source(owner: &Owner) -> (r: bool)
    ensures
        r == from_team_yml(owner@),
{
    let mut i: usize = 0;
    while i < owner.sources.len()
        invariant
            i <= owner.sources.len(),
            forall|j: int| 0 <= j < i ==> !(#[trigger] owner@.sources[j] is TeamYml),
        decreases owner.sources.len() - i,
    {
        if owner.sources[i].is_team_yml() {
            assert(owner@.sources[i as int] is TeamYml);
            return true;
        }
        i = i + 1;
    }
    false
}

/// The problem, if any, of a file with more than one owner, more than one of
/// them by way of a team's configuration file.
pub fn multiple_team_file_owners(owners: &Vec<Owner>, relative_path: &str) -> (r: Option<Error>)
    ensures
        match r {
            Some(e) => multiple_team_file_owners_spec(owners@.map_values(|o: Owner| o@), relative_path@)
                == Some(e@),
            None => multiple_team_file_owners_spec(
                owners@.map_values(|o: Owner| o@),
                relative_path@,
            ) is None,
        },
{
    if owners.len() <= 1 {
        return None;
    }
    let ghost ov = owners@.map_values(|o: Owner| o@);
    let ghost pred = |o: OwnerView| from_team_yml(o);
    let mut team_file_owners: Vec<Owner> = Vec::new();
    let mut i: usize = 0;
    while i < owners.len()
        invariant
            i <= owners.len(),
            ov == owners@.map_values(|o: Owner| o@),
            pred == (|o: OwnerView| from_team_yml(o)),
            team_file_owners@.map_values(|o: Owner| o@) == ov.take(i as int).filter(pred),
        decreases owners.len() - i,
    {
        let owner = &owners[i];
        proof {
            reveal(Seq::filter);
            assert(ov.take(i + 1).drop_last() =~= ov.take(i as int));
            assert(ov.take(i + 1).last() == owner@);
        }
        if has_team_yml_source(owner) {
            let ghost before = team_file_owners@;
            team_file_owners.push(
                Owner { sources: copy_sources(&owner.sources), team_name: owner.team_name.clone() },
            );
            assert(team_file_owners@.map_values(|o: Owner| o@) =~= before.map_values(
                |o: Owner| o@,
            ).push(owner@));
        }
        i = i + 1;
    }
    assert(ov.take(owners.len() as int) =~= ov);
    if team_file_owners.len() > 1 {
        Some(Error::MultipleTeamYmls { path: to_owned_string(relative_path), owners: team_file_owners })
    } else {
        None
    }
}

/// Files annotated with a team that does not exist.
pub open spec fn invalid_annotation_errors(p: ProjectView) -> Seq<ErrorView> {
    p.files.filter_map(
        |f: ProjectFileView|
            match f.owner {
                Some(o) => if teams_by_name_spec(p.teams).contains_key(o) {
                    None
                } else {
                    Some(ErrorView::InvalidTeam { name: o, path: relative_spec(p, f.path) })
                },
                None => None,
            },
    )
}

/// Packages owned by a team that does not exist.
pub open spec fn invalid_package_errors(p: ProjectView) -> Seq<ErrorView> {
    p.packages.filter_map(
        |pk: PackageView|
            if teams_by_name_spec(p.teams).contains_key(pk.owner) {
                None
            } else {
                Some(ErrorView::InvalidTeam { name: pk.owner, path: relative_spec(p, pk.path) })
            },
    )
}

/// The problem, if any, with the owners of a file.
pub open spec fn file_ownership_error(
    p: ProjectView,
    ms: Seq<OwnerMatcherView>,
    f: ProjectFileView,
) -> Option<ErrorView> {
    let path = relative_spec(p, f.path);
    let owners = find_spec(ms, path);
    if owners.len() == 0 {
        Some(ErrorView::FileWithoutOwner { path })
    } else {
        multiple_team_file_owners_spec(owners, path)
    }
}

/// The problems with the owners of the project's files, in the files' order.
pub open spec fn file_ownership_errors(p: ProjectView, ms: Seq<OwnerMatcherView>) -> Seq<ErrorView> {
    p.files.filter_map(|f: ProjectFileView| file_ownership_error(p, ms, f))
}

/// The CODEOWNERS file is stale when it could not be read or differs from the
/// generated one.
pub open spec fn stale_errors(p: ProjectView) -> Seq<ErrorView> {
    if p.codeowners_file == Some(generated_file_spec(p)) {
        Seq::empty()
    } else {
        seq![ErrorView::CodeownershipFileIsStale { executable_name: p.executable_name }]
    }
}

/// Every problem of the project, check after check.
pub open spec fn validation_errors(p: ProjectView, packages: Seq<Package>) -> Seq<ErrorView> {
    invalid_annotation_errors(p) + invalid_package_errors(p) + file_ownership_errors(
        p,
        all_matchers_spec(p, packages),
    ) + stale_errors(p)
}

pub struct Validator<'a> {
    project: &'a Project,
}

/// Appends `more` to `errors`.
fn append_errors(errors: &mut Vec<Error>, more: Vec<Error>)
    ensures
        final(errors)@.map_values(|e: Error| e@) == old(errors)@.map_values(|e: Error| e@)
            + more@.map_values(|e: Error| e@),
{
    let ghost start = errors@;
    let mut rest = more;
    errors.append(&mut rest);
    assert(errors@.map_values(|e: Error| e@) =~= start.map_values(|e: Error| e@) + more@.map_values(
        |e: Error| e@,
    ));
}

impl<'a> Validator<'a> {
    pub closed spec fn project_view(&self) -> ProjectView {
        self.project@
    }

    pub closed spec fn packages(&self) -> Seq<Package> {
        self.project.packages@
    }

    pub fn build(project: &'a Project) -> (r: Self)
        ensures
            r.project_view() == project@,
            r.packages() == project.packages@,
    {
        Validator { project }
    }

    /// Every problem of the project; `Ok` when there is none.
    pub fn validate(&self) -> (r: Result<(), Errors>)
        requires
            project_wf(self.project_view()),
        ensures
            match r {
                Ok(()) => validation_errors(self.project_view(), self.packages()).len() == 0,
                Err(es) => es@ == validation_errors(self.project_view(), self.packages())
                    && es@.len() > 0,
            },
    {
        let mut errors: Vec<Error> = Vec::new();
        assert(errors@.map_values(|e: Error| e@) =~= Seq::<ErrorView>::empty());
        append_errors(&mut errors, self.invalid_team_annotation());
        append_errors(&mut errors, self.invalid_package_ownership());
        append_errors(&mut errors, self.validate_file_ownership());
        append_errors(&mut errors, self.validate_codeowners_file());
        if errors.len() == 0 {
            Ok(())
        } else {
            Err(Errors(errors))
        }
    }

    fn invalid_team_annotation(&self) -> (r: Vec<Error>)
        requires
            project_wf(self.project_view()),
        ensures
            r@.map_values(|e: Error| e@) == invalid_annotation_errors(self.project_view()),
    {
        let project = self.project;
        let ghost p = project@;
        let ghost fs = p.files;
        let ghost f = |x: ProjectFileView|
            match x.owner {
                Some(o) => if teams_by_name_spec(p.teams).contains_key(o) {
                    None
                } else {
                    Some(ErrorView::InvalidTeam { name: o, path: relative_spec(p, x.path) })
                },
                None => None,
            };
        let teams = project.team_by_name();
        let mut errors: Vec<Error> = Vec::new();
        let mut i: usize = 0;
        while i < project.files.len()
            invariant
                i <= project.files.len(),
                p == project@,
                project_wf(p),
                fs == p.files,
                teams@ == teams_by_name_spec(p.teams),
                f == (|x: ProjectFileView|
                    match x.owner {
                        Some(o) => if teams_by_name_spec(p.teams).contains_key(o) {
                            None
                        } else {
                            Some(ErrorView::InvalidTeam { name: o, path: relative_spec(p, x.path) })
                        },
                        None => None,
                    }),
                errors@.map_values(|e: Error| e@) == fs.take(i as int).filter_map(f),
            decreases project.files.len() - i,
        {
            let file = &project.files[i];
            assert(fs[i as int] == file@);
            assert(fs.take(i + 1).drop_last() =~= fs.take(i as int));
            assert(fs.take(i + 1).last() == file@);
            if let Some(owner) = &file.owner {
                if !teams.contains_key(owner.as_str()) {
                    let ghost before = errors@;
                    let path = project.relative_path(file.path.as_str());
                    errors.push(Error::InvalidTeam { name: owner.clone(), path });
                    assert(errors@.map_values(|e: Error| e@) =~= before.map_values(
                        |e: Error| e@,
                    ).push(f(file@).unwrap()));
                }
            }
            i = i + 1;
        }
        assert(fs.take(project.files.len() as int) =~= fs);
        errors
    }

    fn invalid_package_ownership(&self) -> (r: Vec<Error>)
        requires
            project_wf(self.project_view()),
        ensures
            r@.map_values(|e: Error| e@) == invalid_package_errors(self.project_view()),
    {
        let project = self.project;
        let ghost p = project@;
        let ghost ps = p.packages;
        let ghost f = |pk: PackageView|
            if teams_by_name_spec(p.teams).contains_key(pk.owner) {
                None
            } else {
                Some(ErrorView::InvalidTeam { name: pk.owner, path: relative_spec(p, pk.path) })
            };
        let teams = project.team_by_name();
        let mut errors: Vec<Error> = Vec::new();
        let mut i: usize = 0;
        while i < project.packages.len()
            invariant
                i <= project.packages.len(),
                p == project@,
                project_wf(p),
                ps == p.packages,
                teams@ == teams_by_name_spec(p.teams),
                f == (|pk: PackageView|
                    if teams_by_name_spec(p.teams).contains_key(pk.owner) {
                        None
                    } else {
                        Some(ErrorView::InvalidTeam { name: pk.owner, path: relative_spec(p, pk.path) })
                    }),
                errors@.map_values(|e: Error| e@) == ps.take(i as int).filter_map(f),
            decreases project.packages.len() - i,
        {
            let package = &project.packages[i];
            assert(ps[i as int] == package@);
            assert(ps.take(i + 1).drop_last() =~= ps.take(i as int));
            assert(ps.take(i + 1).last() == package@);
            if !teams.contains_key(package.owner.as_str()) {
                let ghost before = errors@;
                let path = project.relative_path(package.path.as_str());
                errors.push(Error::InvalidTeam { name: package.owner.clone(), path });
                assert(errors@.map_values(|e: Error| e@) =~= before.map_values(|e: Error| e@).push(
                    f(package@).unwrap(),
                ));
            }
            i = i + 1;
        }
        assert(ps.take(project.packages.len() as int) =~= ps);
        errors
    }

    fn validate_file_ownership(&self) -> (r: Vec<Error>)
        requires
            project_wf(self.project_view()),
        ensures
            r@.map_values(|e: Error| e@) == file_ownership_errors(
                self.project_view(),
                all_matchers_spec(self.project_view(), self.packages()),
            ),
    {
        let project = self.project;
        let ghost p = project@;
        let ghost fs = p.files;
        let matchers = all_owner_matchers(project);
        let ghost ms = matchers@.map_values(|m: OwnerMatcher| m@);
        let finder = FileOwnerFinder { owner_matchers: &matchers };
        let ghost f = |x: ProjectFileView| file_ownership_error(p, ms, x);
        let mut errors: Vec<Error> = Vec::new();
        let mut i: usize = 0;
        while i < project.files.len()
            invariant
                i <= project.files.len(),
                p == project@,
                project_wf(p),
                fs == p.files,
                ms == matchers@.map_values(|m: OwnerMatcher| m@),
                finder.owner_matchers == &matchers,
                f == (|x: ProjectFileView| file_ownership_error(p, ms, x)),
                errors@.map_values(|e: Error| e@) == fs.take(i as int).filter_map(f),
            decreases project.files.len() - i,
        {
            let file = &project.files[i];
            assert(fs[i as int] == file@);
            assert(fs.take(i + 1).drop_last() =~= fs.take(i as int));
            assert(fs.take(i + 1).last() == file@);
            let relative_path = project.relative_path(file.path.as_str());
            let owners = finder.find(relative_path.as_str());
            let ghost before = errors@;
            if owners.len() == 0 {
                errors.push(Error::FileWithoutOwner { path: relative_path });
                assert(errors@.map_values(|e: Error| e@) =~= before.map_values(|e: Error| e@).push(
                    f(file@).unwrap(),
                ));
            } else if let Some(e) = multiple_team_file_owners(&owners, relative_path.as_str()) {
                errors.push(e);
                assert(errors@.map_values(|e: Error| e@) =~= before.map_values(|e: Error| e@).push(
                    f(file@).unwrap(),
                ));
            }
            i = i + 1;
        }
        assert(fs.take(project.files.len() as int) =~= fs);
        errors
    }

    fn validate_codeowners_file(&self) -> (r: Vec<Error>)
        requires
            project_wf(self.project_view()),
        ensures
            r@.map_values(|e: Error| e@) == stale_errors(self.project_view()),
    {
        let project = self.project;
        let generated = FileGenerator::build(project).generate_file();
        let fresh = match &project.codeowners_file {
            Some(current) => str_eq(current.as_str(), generated.as_str()),
            None => false,
        };
        let mut r: Vec<Error> = Vec::new();
        if !fresh {
            r.push(
                Error::CodeownershipFileIsStale { executable_name: project.executable_name.clone() },
            );
        }
        assert(r@.map_values(|e: Error| e@) =~= stale_errors(project@));
        r
    }
}

/// The categories of the problems, each once, in increasing order.
pub open spec fn categories_spec(es: Seq<ErrorView>) -> Seq<Seq<char>> {
    sorted_set(es.map_values(|e: ErrorView| category_spec(e)))
}

/// The messages of the problems of one category, in the problems' order.
pub open spec fn category_messages(es: Seq<ErrorView>, c: Seq<char>) -> Seq<Seq<char>> {
    es.filter(|e: ErrorView| category_spec(e) == c).map_values(|e: ErrorView| messages_spec(e)).flatten_alt()
}

/// The report of one category: its heading, then its messages sorted, one
/// per line, when there are any.
pub open spec fn category_block(es: Seq<ErrorView>, c: Seq<char>) -> Seq<char> {
    let msgs = join_spec(
        stable_sorted(category_messages(es, c), |a: Seq<char>, b: Seq<char>| text_le(a, b)),
        "\n"@,
    );
    "\n"@ + c + (if msgs.len() > 0 {
        "\n"@ + msgs
    } else {
        Seq::empty()
    }) + "\n"@
}

/// The report of all problems, category after category.
pub open spec fn errors_text(es: Seq<ErrorView>) -> Seq<char> {
    categories_spec(es).map_values(|c: Seq<char>| category_block(es, c)).flatten_alt()
}

impl Errors {
    /// The report of the problems (its `Display`).
    pub fn to_text(&self) -> (r: String)
        ensures
            r@ == errors_text(self@),
    {
        let errors = &self.0;
        let ghost es = self@;
        let mut cats: Vec<String> = Vec::new();
        let mut i: usize = 0;
        while i < errors.len()
            invariant
                i <= errors.len(),
                es == errors@.map_values(|e: Error| e@),
                cats@.map_values(|s: String| s@) == es.take(i as int).map_values(
                    |e: ErrorView| category_spec(e),
                ),
            decreases errors.len() - i,
        {
            let ghost before = cats@;
            cats.push(errors[i].category());
            assert(cats@.map_values(|s: String| s@) =~= before.map_values(|s: String| s@).push(
                category_spec(es[i as int]),
            ));
            assert(es.take(i + 1).map_values(|e: ErrorView| category_spec(e)) =~= es.take(
                i as int,
            ).map_values(|e: ErrorView| category_spec(e)).push(category_spec(es[i as int])));
            i = i + 1;
        }
        assert(es.take(errors.len() as int) =~= es);
        let categories = sorted_unique(cats);
        let ghost cv = categories@.map_values(|s: String| s@);
        let mut out = String::new();
        let mut k: usize = 0;
        assert(cv.take(0).map_values(|c: Seq<char>| category_block(es, c)).flatten_alt() =~= Seq::<
            char,
        >::empty());
        while k < categories.len()
            invariant
                k <= categories.len(),
                es == errors@.map_values(|e: Error| e@),
                cv == categories@.map_values(|s: String| s@),
                cv == categories_spec(es),
                out@ == cv.take(k as int).map_values(|c: Seq<char>| category_block(es, c)).flatten_alt(),
            decreases categories.len() - k,
        {
            let block = category_report(errors, &categories[k]);
            let ghost before = out@;
            push_str(&mut out, block.as_str());
            proof {
                let g = |c: Seq<char>| category_block(es, c);
                assert(cv[k as int] == categories@[k as int]@);
                assert(cv.take(k + 1).map_values(g) =~= cv.take(k as int).map_values(g).push(
                    g(cv[k as int]),
                ));
                lemma_flatten_alt_push(cv.take(k as int).map_values(g), g(cv[k as int]));
            }
            k = k + 1;
        }
        assert(cv.take(categories.len() as int) =~= cv);
        out
    }
}

/// The report of one category of problems.
fn category_report(errors: &Vec<Error>, category: &String) -> (r: String)
    ensures
        r@ == category_block(errors@.map_values(|e: Error| e@), category@),
{
    let ghost es = errors@.map_values(|e: Error| e@);
    let ghost c = category@;
    let ghost pred = |e: ErrorView| category_spec(e) == c;
    let ghost g = |e: ErrorView| messages_spec(e);
    let mut msgs: Vec<String> = Vec::new();
    let mut i: usize = 0;
    assert(es.take(0).filter(pred).map_values(g).flatten_alt() =~= Seq::<Seq<char>>::empty()) by {
        reveal(Seq::filter);
    }
    while i < errors.len()
        invariant
            i <= errors.len(),
            es == errors@.map_values(|e: Error| e@),
            c == category@,
            pred == (|e: ErrorView| category_spec(e) == c),
            g == (|e: ErrorView| messages_spec(e)),
            msgs@.map_values(|s: String| s@) == es.take(i as int).filter(pred).map_values(
                g,
            ).flatten_alt(),
        decreases errors.len() - i,
    {
        let e = &errors[i];
        let ghost ev = e@;
        let ghost before = es.take(i as int).filter(pred);
        proof {
            reveal(Seq::filter);
            assert(es.take(i + 1).drop_last() =~= es.take(i as int));
            assert(es.take(i + 1).last() == ev);
        }
        let ec = e.category();
        if str_eq(ec.as_str(), category.as_str()) {
            let ghost start = msgs@.map_values(|s: String| s@);
            let mut more = e.messages();
            let ghost mv = more@.map_values(|s: String| s@);
            msgs.append(&mut more);
            proof {
                assert(es.take(i + 1).filter(pred) == before.push(ev));
                assert(before.push(ev).map_values(g) =~= before.map_values(g).push(g(ev)));
                lemma_flatten_alt_push(before.map_values(g), g(ev));
                assert(msgs@.map_values(|s: String| s@) =~= start + mv);
            }
        } else {
            assert(es.take(i + 1).filter(pred) == before);
        }
        i = i + 1;
    }
    assert(es.take(errors.len() as int) =~= es);
    let sorted = sort_texts(msgs);
    let joined = join(&sorted, "\n");
    let mut r = concat("\n", category.as_str());
    proof {
        reveal_strlit("");
        assert(""@ =~= Seq::<char>::empty());
    }
    let ghost msgs_joined = join_spec(
        stable_sorted(category_messages(es, c), |a: Seq<char>, b: Seq<char>| text_le(a, b)),
        "\n"@,
    );
    assert(joined@ == msgs_joined);
    let empty = str_eq(joined.as_str(), "");
    if !empty {
        push_str(&mut r, "\n");
        push_str(&mut r, joined.as_str());
        push_str(&mut r, "\n");
        assert(msgs_joined.len() > 0) by {
            if msgs_joined.len() == 0 {
                assert(msgs_joined =~= Seq::<char>::empty());
            }
        }
        assert(r@ =~= "\n"@ + c + ("\n"@ + msgs_joined) + "\n"@);
    } else {
        push_str(&mut r, "\n");
        assert(msgs_joined.len() == 0);
        assert(r@ =~= "\n"@ + c + Seq::<char>::empty() + "\n"@);
    }
    r
}

proof fn lemma_filter_map_none<A, B>(s: Seq<A>, f: spec_fn(A) -> Option<B>, i: int)
    requires
        s.filter_map(f).len() == 0,
        0 <= i < s.len(),
    ensures
        f(s[i]) is None,
    decreases s.len(),
{
    let rest = s.drop_last();
    if f(s.last()) is Some {
        assert((rest.filter_map(f) + seq![f(s.last()).unwrap()]).len() > 0);
    }
    assert(rest.filter_map(f).len() == 0);
    if i < s.len() - 1 {
        lemma_filter_map_none(rest, f, i);
        assert(rest[i] == s[i]);
    }
}

/// A project that validates has: an owner for every file, and never two
/// owners of a file by way of team files; an existing team for every file
/// annotation and every package; and the generated CODEOWNERS file.
pub proof fn lemma_valid_project(p: ProjectView, packages: Seq<Package>)
    requires
        validation_errors(p, packages).len() == 0,
    ensures
        forall|i: int|
            0 <= i < p.files.len() ==> find_spec(
                all_matchers_spec(p, packages),
                relative_spec(p, #[trigger] p.files[i].path),
            ).len() > 0,
        forall|i: int|
            0 <= i < p.files.len() ==> multiple_team_file_owners_spec(
                find_spec(all_matchers_spec(p, packages), relative_spec(p, #[trigger] p.files[i].path)),
                relative_spec(p, p.files[i].path),
            ) is None,
        forall|i: int|
            0 <= i < p.files.len() && (#[trigger] p.files[i]).owner is Some ==> teams_by_name_spec(
                p.teams,
            ).contains_key(p.files[i].owner.unwrap()),
        forall|i: int|
            0 <= i < p.packages.len() ==> teams_by_name_spec(p.teams).contains_key(
                (#[trigger] p.packages[i]).owner,
            ),
        p.codeowners_file == Some(generated_file_spec(p)),
{
    let ms = all_matchers_spec(p, packages);
    assert(invalid_annotation_errors(p).len() == 0);
    assert(invalid_package_errors(p).len() == 0);
    assert(file_ownership_errors(p, ms).len() == 0);
    assert(stale_errors(p).len() == 0);
    assert forall|i: int| 0 <= i < p.files.len() implies find_spec(
        ms,
        relative_spec(p, #[trigger] p.files[i].path),
    ).len() > 0 && multiple_team_file_owners_spec(
        find_spec(ms, relative_spec(p, p.files[i].path)),
        relative_spec(p, p.files[i].path),
    ) is None by {
        lemma_filter_map_none(p.files, |f: ProjectFileView| file_ownership_error(p, ms, f), i);
    }
    assert forall|i: int| 0 <= i < p.files.len() && (#[trigger] p.files[i]).owner is Some implies teams_by_name_spec(
        p.teams,
    ).contains_key(p.files[i].owner.unwrap()) by {
        lemma_filter_map_none(
            p.files,
            |f: ProjectFileView|
                match f.owner {
                    Some(o) => if teams_by_name_spec(p.teams).contains_key(o) {
                        None
                    } else {
                        Some(ErrorView::InvalidTeam { name: o, path: relative_spec(p, f.path) })
                    },
                    None => None,
                },
            i,
        );
    }
    assert forall|i: int| 0 <= i < p.packages.len() implies teams_by_name_spec(p.teams).contains_key(
        (#[trigger] p.packages[i]).owner,
    ) by {
        lemma_filter_map_none(
            p.packages,
            |pk: PackageView|
                if teams_by_name_spec(p.teams).contains_key(pk.owner) {
                    None
                } else {
                    Some(ErrorView::InvalidTeam { name: pk.owner, path: relative_spec(p, pk.path) })
                },
            i,
        );
    }
}

/// The CODEOWNERS file is reported stale exactly when it is not the
/// generated one; after `generate` has written it, it is not.
pub proof fn lemma_stale_iff_not_generated(p: ProjectView)
    ensures
        stale_errors(p).len() == 0 <==> p.codeowners_file == Some(generated_file_spec(p)),
        stale_errors(p).len() > 0 ==> stale_errors(p) == seq![
            ErrorView::CodeownershipFileIsStale { executable_name: p.executable_name },
        ],
{
}

/// No error that `f` makes is the stale-file error, so none of `s.filter_map(f)` is.
proof fn lemma_filter_map_not_stale<A>(s: Seq<A>, f: spec_fn(A) -> Option<ErrorView>)
    requires
        forall|a: A| #[trigger] f(a) is Some ==> !(f(a).unwrap() is CodeownershipFileIsStale),
    ensures
        forall|i: int|
            0 <= i < s.filter_map(f).len() ==> !(#[trigger] s.filter_map(f)[i] is CodeownershipFileIsStale),
    decreases s.len(),
{
    if s.len() > 0 {
        lemma_filter_map_not_stale(s.drop_last(), f);
        let rest = s.drop_last().filter_map(f);
        assert(s.filter_map(f) == match f(s.last()) {
            Some(e) => rest + seq![e],
            None => rest,
        });
        if f(s.last()) is Some {
            assert forall|i: int| 0 <= i < s.filter_map(f).len() implies !(
            #[trigger] s.filter_map(f)[i] is CodeownershipFileIsStale) by {
                if i < rest.len() {
                    assert(s.filter_map(f)[i] == rest[i]);
                }
            }
        }
    }
}

/// `validate` reports the CODEOWNERS file as stale exactly when the file is
/// not the generated one (missing, unreadable or different): no other check
/// gives that error.
pub proof fn lemma_stale_reported_iff_not_generated(p: ProjectView, packages: Seq<Package>)
    ensures
        (exists|i: int|
            0 <= i < validation_errors(p, packages).len() && (
            #[trigger] validation_errors(p, packages)[i]) is CodeownershipFileIsStale) <==> p.codeowners_file
            != Some(generated_file_spec(p)),
{
    let a = invalid_annotation_errors(p);
    let b = invalid_package_errors(p);
    let c = file_ownership_errors(p, all_matchers_spec(p, packages));
    let d = stale_errors(p);
    let fa = |f: ProjectFileView|
        match f.owner {
            Some(o) => if teams_by_name_spec(p.teams).contains_key(o) {
                None
            } else {
                Some(ErrorView::InvalidTeam { name: o, path: relative_spec(p, f.path) })
            },
            None => None,
        };
    let fb = |pk: PackageView|
        if teams_by_name_spec(p.teams).contains_key(pk.owner) {
            None
        } else {
            Some(ErrorView::InvalidTeam { name: pk.owner, path: relative_spec(p, pk.path) })
        };
    let ms = all_matchers_spec(p, packages);
    let fc = |f: ProjectFileView| file_ownership_error(p, ms, f);
    assert(a == p.files.filter_map(fa));
    assert(b == p.packages.filter_map(fb));
    assert(c == p.files.filter_map(fc));
    lemma_filter_map_not_stale(p.files, fa);
    lemma_filter_map_not_stale(p.packages, fb);
    assert forall|f: ProjectFileView| #[trigger] fc(f) is Some implies !(fc(f).unwrap() is CodeownershipFileIsStale) by {
        let path = relative_spec(p, f.path);
        let owners = find_spec(ms, path);
        if owners.len() > 1 {
            let t = owners.filter(|o: OwnerView| from_team_yml(o));
        }
    }
    lemma_filter_map_not_stale(p.files, fc);
    let all = validation_errors(p, packages);
    assert(all == a + b + c + d);
    if p.codeowners_file != Some(generated_file_spec(p)) {
        assert(all[all.len() - 1] is CodeownershipFileIsStale);
    } else {
        assert(d.len() == 0);
        assert forall|i: int| 0 <= i < all.len() implies !(#[trigger] all[i] is CodeownershipFileIsStale) by {
            if i < a.len() {
                assert(all[i] == a[i]);
            } else if i < a.len() + b.len() {
                assert(all[i] == b[i - a.len()]);
            } else {
                assert(all[i] == c[i - a.len() - b.len()]);
            }
        }
    }
}

/// The project `p` with `file` as its CODEOWNERS file.
pub open spec fn with_codeowners_file(p: ProjectView, file: Seq<char>) -> ProjectView {
    ProjectView { codeowners_file: Some(file), ..p }
}

/// What the ownership rules make of a project does not depend on its
/// CODEOWNERS file.
proof fn lemma_rules_ignore_codeowners_file(p: ProjectView, file: Seq<char>, packages: Seq<Package>)
    ensures
        generated_file_spec(with_codeowners_file(p, file)) == generated_file_spec(p),
        invalid_annotation_errors(with_codeowners_file(p, file)) == invalid_annotation_errors(p),
        invalid_package_errors(with_codeowners_file(p, file)) == invalid_package_errors(p),
        all_matchers_spec(with_codeowners_file(p, file), packages) == all_matchers_spec(p, packages),
        file_ownership_errors(with_codeowners_file(p, file), all_matchers_spec(p, packages))
            == file_ownership_errors(p, all_matchers_spec(p, packages)),
{
    let q = with_codeowners_file(p, file);
    assert forall|x: Seq<char>| relative_spec(q, x) == relative_spec(p, x) by {}
    assert((|f: ProjectFileView| annotated_entry(q, teams_by_name_spec(q.teams), f)) =~= (|
        f: ProjectFileView,
    | annotated_entry(p, teams_by_name_spec(p.teams), f)));
    assert((|f: ProjectFileView| annotated_pair(q, teams_by_name_spec(q.teams), f)) =~= (|
        f: ProjectFileView,
    | annotated_pair(p, teams_by_name_spec(p.teams), f)));
    assert((|t: TeamView| team_yml_entry(q, t)) =~= (|t: TeamView| team_yml_entry(p, t)));
    assert((|t: TeamView| (relative_spec(q, t.path), t.name)) =~= (|t: TeamView| (
        relative_spec(p, t.path),
        t.name,
    )));
    assert forall|t: TeamView| gem_entries_of(q, t) == gem_entries_of(p, t) && gem_matchers_of(q, t)
        == gem_matchers_of(p, t) by {
        assert((|gem: Seq<char>| gem_entry(q, gems_by_name_spec(q.vendored_gems), t, gem)) =~= (|
            gem: Seq<char>,
        | gem_entry(p, gems_by_name_spec(p.vendored_gems), t, gem)));
        assert((|gem: Seq<char>| gem_matcher(q, gems_by_name_spec(q.vendored_gems), t, gem)) =~= (|
            gem: Seq<char>,
        | gem_matcher(p, gems_by_name_spec(p.vendored_gems), t, gem)));
    }
    assert((|t: TeamView| gem_entries_of(q, t)) =~= (|t: TeamView| gem_entries_of(p, t)));
    assert((|t: TeamView| gem_matchers_of(q, t)) =~= (|t: TeamView| gem_matchers_of(p, t)));
    assert(generated_file_spec(q) == generated_file_spec(p));
    assert((|f: ProjectFileView|
        match f.owner {
            Some(o) => if teams_by_name_spec(q.teams).contains_key(o) {
                None
            } else {
                Some(ErrorView::InvalidTeam { name: o, path: relative_spec(q, f.path) })
            },
            None => None,
        }) =~= (|f: ProjectFileView|
        match f.owner {
            Some(o) => if teams_by_name_spec(p.teams).contains_key(o) {
                None
            } else {
                Some(ErrorView::InvalidTeam { name: o, path: relative_spec(p, f.path) })
            },
            None => None,
        }));
    assert(invalid_annotation_errors(q) == invalid_annotation_errors(p));
    assert((|pk: PackageView|
        if teams_by_name_spec(q.teams).contains_key(pk.owner) {
            None
        } else {
            Some(ErrorView::InvalidTeam { name: pk.owner, path: relative_spec(q, pk.path) })
        }) =~= (|pk: PackageView|
        if teams_by_name_spec(p.teams).contains_key(pk.owner) {
            None
        } else {
            Some(ErrorView::InvalidTeam { name: pk.owner, path: relative_spec(p, pk.path) })
        }));
    assert(invalid_package_errors(q) == invalid_package_errors(p));
    assert(all_matchers_spec(q, packages) == all_matchers_spec(p, packages));
    let ms = all_matchers_spec(p, packages);
    assert((|f: ProjectFileView| file_ownership_error(q, ms, f)) =~= (|f: ProjectFileView|
        file_ownership_error(p, ms, f)));
}

/// Generating and then validating: once the CODEOWNERS file is the one that
/// `generate` makes, the file generated is the same, `validate` reports no
/// stale file, and its other reports are those of the project before.
pub proof fn lemma_generate_then_validate(p: ProjectView, packages: Seq<Package>)
    ensures
        generated_file_spec(with_codeowners_file(p, generated_file_spec(p))) == generated_file_spec(p),
        validation_errors(with_codeowners_file(p, generated_file_spec(p)), packages)
            == invalid_annotation_errors(p) + invalid_package_errors(p) + file_ownership_errors(
            p,
            all_matchers_spec(p, packages),
        ),
        forall|i: int|
            0 <= i < validation_errors(with_codeowners_file(p, generated_file_spec(p)), packages).len()
                ==> !(#[trigger] validation_errors(
                with_codeowners_file(p, generated_file_spec(p)),
                packages,
            )[i] is CodeownershipFileIsStale),
{
    let q = with_codeowners_file(p, generated_file_spec(p));
    lemma_rules_ignore_codeowners_file(p, generated_file_spec(p), packages);
    assert(stale_errors(q) =~= Seq::<ErrorView>::empty());
    let rest = invalid_annotation_errors(p) + invalid_package_errors(p) + file_ownership_errors(
        p,
        all_matchers_spec(p, packages),
    );
    assert(validation_errors(q, packages) =~= rest);
    lemma_stale_reported_iff_not_generated(q, packages);
}

} // verus!
