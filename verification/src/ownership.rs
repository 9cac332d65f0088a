//! Who owns what: the CODEOWNERS file generated from a project, the owners of
//! one file, and the ownership report of one team.
use vstd::prelude::*;

use crate::path::{strip_prefix, strip_prefix_spec};
use crate::project::{
    project_wf, teams_by_name_spec, Package, PackageType, Project, ProjectView, Team, TeamView,
};
use crate::sort::{sort_texts, stable_sorted};
use crate::text::{
    concat, ends_with, is_prefix, is_suffix, join, join_spec, lines, lines_spec, push_str,
    replace, replace_spec, split_once, split_once_spec, starts_with, str_eq, text_le, trim_start,
    trim_start_spec, to_owned_string,
};

pub mod codeowners_file_parser;
pub mod codeowners_query;
pub mod file_generator;
pub mod file_owner_finder;
pub mod for_file_fast;
pub mod mapper;
pub mod read_back;
pub mod validator;

use file_generator::{disclaimer_spec, generated_file_spec, FileGenerator};
use file_owner_finder::{
    copy_sources, find_spec, order_owners_by_lower_name, owners_by_lower_name, FileOwnerFinder,
    Owner, OwnerView,
};
use mapper::directory_mapper::directory_matchers_spec;
use mapper::package_mapper::package_matchers_spec;
use mapper::team_file_mapper::team_file_matchers_spec;
use mapper::team_gem_mapper::team_gem_matchers_spec;
use mapper::team_glob_mapper::team_glob_matchers_spec;
use mapper::team_yml_mapper::team_yml_matchers_spec;
use mapper::{
    source_text, DirectoryMapper, JavascriptPackageMapper, Mapper, OwnerMatcher,
    OwnerMatcherView, RubyPackageMapper, Source, SourceView, TeamFileMapper, TeamGemMapper,
    TeamGlobMapper, TeamName, TeamYmlMapper,
};
use validator::{validation_errors, Errors, Validator};

verus! {

/// A line of a section of the CODEOWNERS file.
#[derive(Debug, PartialEq)]
pub struct Entry {
    pub path: String,
    pub github_team: String,
    pub team_name: TeamName,
    pub disabled: bool,
}

pub struct EntryView {
    pub path: Seq<char>,
    pub github_team: Seq<char>,
    pub team_name: Seq<char>,
    pub disabled: bool,
}

impl View for Entry {
    type V = EntryView;

    open spec fn view(&self) -> EntryView {
        EntryView {
            path: self.path@,
            github_team: self.github_team@,
            team_name: self.team_name@,
            disabled: self.disabled,
        }
    }
}

/// The line of an entry: `/path @team`, commented out when the team does not
/// want to be added to the file.
pub open spec fn entry_row(e: EntryView) -> Seq<char> {
    let line = "/"@ + e.path + " "@ + e.github_team;
    if e.disabled {
        "# "@ + line
    } else {
        line
    }
}

impl Entry {
    pub fn to_row(&self) -> (r: String)
        ensures
            r@ == entry_row(self@),
    {
        let mut line = to_owned_string("/");
        push_str(&mut line, self.path.as_str());
        push_str(&mut line, " ");
        push_str(&mut line, self.github_team.as_str());
        if self.disabled {
            let mut r = to_owned_string("# ");
            push_str(&mut r, line.as_str());
            r
        } else {
            line
        }
    }
}

/// A section of the CODEOWNERS file as a team's report shows it.
#[derive(Debug, Default, Clone, PartialEq)]
pub struct TeamOwnership {
    pub heading: String,
    pub globs: Vec<String>,
}

pub struct TeamOwnershipView {
    pub heading: Seq<char>,
    pub globs: Seq<Seq<char>>,
}

impl View for TeamOwnership {
    type V = TeamOwnershipView;

    open spec fn view(&self) -> TeamOwnershipView {
        TeamOwnershipView {
            heading: self.heading@,
            globs: self.globs@.map_values(|g: String| g@),
        }
    }
}

impl TeamOwnership {
    pub fn new(heading: String) -> (r: Self)
        ensures
            r.heading@ == heading@,
            r.globs@.len() == 0,
    {
        TeamOwnership { heading, globs: Vec::new() }
    }
}

/// An owner of a file, with the team's details and what made it the owner.
pub struct FileOwner {
    pub team: Team,
    pub team_config_file_path: String,
    pub sources: Vec<Source>,
}

pub struct FileOwnerView {
    pub team: TeamView,
    pub team_config_file_path: Seq<char>,
    pub sources: Seq<SourceView>,
}

impl View for FileOwner {
    type V = FileOwnerView;

    open spec fn view(&self) -> FileOwnerView {
        FileOwnerView {
            team: self.team@,
            team_config_file_path: self.team_config_file_path@,
            sources: self.sources@.map_values(|s: Source| s@),
        }
    }
}

/// The matchers of every mapper, mapper after mapper.
pub open spec fn all_matchers_spec(p: ProjectView, packages: Seq<Package>) -> Seq<OwnerMatcherView> {
    team_file_matchers_spec(p) + team_glob_matchers_spec(p) + directory_matchers_spec(p)
        + package_matchers_spec(p, packages, PackageType::Ruby) + package_matchers_spec(
        p,
        packages,
        PackageType::Javascript,
    ) + team_yml_matchers_spec(p) + team_gem_matchers_spec(p)
}

/// Appends `more` to `ms`.
fn append_matchers(ms: &mut Vec<OwnerMatcher>, more: Vec<OwnerMatcher>)
    ensures
        final(ms)@.map_values(|m: OwnerMatcher| m@) == old(ms)@.map_values(|m: OwnerMatcher| m@)
            + more@.map_values(|m: OwnerMatcher| m@),
{
    let ghost start = ms@;
    let mut rest = more;
    ms.append(&mut rest);
    assert(ms@.map_values(|m: OwnerMatcher| m@) =~= start.map_values(|m: OwnerMatcher| m@)
        + more@.map_values(|m: OwnerMatcher| m@));
}

/// The matchers of every mapper of the project.
pub fn all_owner_matchers(project: &Project) -> (r: Vec<OwnerMatcher>)
    requires
        project.wf(),
    ensures
        r@.map_values(|m: OwnerMatcher| m@) == all_matchers_spec(project@, project.packages@),
{
    let mut ms: Vec<OwnerMatcher> = Vec::new();
    assert(ms@.map_values(|m: OwnerMatcher| m@) =~= Seq::<OwnerMatcherView>::empty());
    append_matchers(&mut ms, TeamFileMapper::build(project).owner_matchers());
    append_matchers(&mut ms, TeamGlobMapper::build(project).owner_matchers());
    append_matchers(&mut ms, DirectoryMapper::build(project).owner_matchers());
    append_matchers(&mut ms, RubyPackageMapper::build(project).owner_matchers());
    append_matchers(&mut ms, JavascriptPackageMapper::build(project).owner_matchers());
    append_matchers(&mut ms, TeamYmlMapper::build(project).owner_matchers());
    append_matchers(&mut ms, TeamGemMapper::build(project).owner_matchers());
    ms
}

/// The team that owns what nobody owns.
pub open spec fn unowned_team_spec() -> TeamView {
    TeamView {
        path: Seq::empty(),
        name: "Unowned"@,
        github_team: "Unowned"@,
        owned_globs: Seq::empty(),
        subtracted_globs: Seq::empty(),
        owned_gems: Seq::empty(),
        avoid_ownership: false,
    }
}

pub open spec fn default_file_owner_spec() -> FileOwnerView {
    FileOwnerView {
        team: unowned_team_spec(),
        team_config_file_path: Seq::empty(),
        sources: Seq::empty(),
    }
}

impl Default for FileOwner {
    fn default() -> (r: Self)
        ensures
            r@ == default_file_owner_spec(),
    {
        let team = Team {
            path: String::new(),
            name: to_owned_string("Unowned"),
            github_team: to_owned_string("Unowned"),
            owned_globs: Vec::new(),
            subtracted_globs: Vec::new(),
            owned_gems: Vec::new(),
            avoid_ownership: false,
        };
        assert(team@.owned_globs =~= Seq::<Seq<char>>::empty());
        assert(team@.subtracted_globs =~= Seq::<Seq<char>>::empty());
        assert(team@.owned_gems =~= Seq::<Seq<char>>::empty());
        assert(team@.path =~= Seq::<char>::empty());
        let r = FileOwner { team, team_config_file_path: String::new(), sources: Vec::new() };
        assert(r@.team == unowned_team_spec());
        assert(r@.sources =~= Seq::<SourceView>::empty());
        r
    }
}

/// The lines that describe the sources of an owner: each source sorted,
/// on a line of its own after `- `; nothing when there is none.
pub open spec fn sources_description(sources: Seq<SourceView>) -> Seq<char> {
    if sources.len() == 0 {
        Seq::empty()
    } else {
        "\n- "@ + join_spec(
            stable_sorted(
                sources.map_values(|s: SourceView| source_text(s)),
                |a: Seq<char>, b: Seq<char>| text_le(a, b),
            ),
            "\n- "@,
        )
    }
}

/// The description of an owner of a file.
pub open spec fn file_owner_text(o: FileOwnerView) -> Seq<char> {
    "Team: "@ + o.team.name + "\nGithub Team: "@ + o.team.github_team + "\nTeam YML: "@
        + o.team_config_file_path + "\nDescription:"@ + sources_description(o.sources)
}

/// The texts of the sources of an owner, sorted.
pub open spec fn sorted_source_texts(sources: Seq<SourceView>) -> Seq<Seq<char>> {
    stable_sorted(
        sources.map_values(|s: SourceView| source_text(s)),
        |a: Seq<char>, b: Seq<char>| text_le(a, b),
    )
}

impl FileOwner {
    /// The texts of the owner's sources, sorted.
    pub fn source_texts(&self) -> (r: Vec<String>)
        ensures
            r@.map_values(|s: String| s@) == sorted_source_texts(self@.sources),
    {
        let ghost sv = self@.sources;
        let mut texts: Vec<String> = Vec::new();
        let mut i: usize = 0;
        while i < self.sources.len()
            invariant
                i <= self.sources.len(),
                sv == self@.sources,
                texts@.map_values(|s: String| s@) == sv.take(i as int).map_values(
                    |s: SourceView| source_text(s),
                ),
            decreases self.sources.len() - i,
        {
            let ghost before = texts@;
            texts.push(self.sources[i].to_text());
            assert(sv[i as int] == self.sources@[i as int]@);
            assert(texts@.map_values(|s: String| s@) =~= before.map_values(|s: String| s@).push(
                source_text(sv[i as int]),
            ));
            assert(sv.take(i + 1).map_values(|s: SourceView| source_text(s)) =~= sv.take(
                i as int,
            ).map_values(|s: SourceView| source_text(s)).push(source_text(sv[i as int])));
            i = i + 1;
        }
        assert(sv.take(self.sources.len() as int) =~= sv);
        sort_texts(texts)
    }

    /// The description of the owner (its `Display`).
    pub fn to_text(&self) -> (r: String)
        ensures
            r@ == file_owner_text(self@),
    {
        let sources = if self.sources.len() == 0 {
            String::new()
        } else {
            concat("\n- ", join(&self.source_texts(), "\n- ").as_str())
        };
        let mut r = concat("Team: ", self.team.name.as_str());
        push_str(&mut r, "\nGithub Team: ");
        push_str(&mut r, self.team.github_team.as_str());
        push_str(&mut r, "\nTeam YML: ");
        push_str(&mut r, self.team_config_file_path.as_str());
        push_str(&mut r, "\nDescription:");
        push_str(&mut r, sources.as_str());
        r
    }
}

/// The owner of a file as reported: the team's details when the team exists,
/// the unowned owner when it does not.
pub open spec fn file_owner_spec(p: ProjectView, o: OwnerView) -> FileOwnerView {
    if teams_by_name_spec(p.teams).contains_key(o.team_name) {
        let t = teams_by_name_spec(p.teams)[o.team_name];
        FileOwnerView {
            team: t,
            team_config_file_path: match strip_prefix_spec(p.base_path, t.path) {
                Some(r) => r,
                None => Seq::empty(),
            },
            sources: o.sources,
        }
    } else {
        default_file_owner_spec()
    }
}

/// The owners of a file, ordered by their teams' names in lower case.
pub open spec fn for_file_spec(p: ProjectView, packages: Seq<Package>, path: Seq<char>) -> Seq<
    FileOwnerView,
> {
    owners_by_lower_name(find_spec(all_matchers_spec(p, packages), path)).map_values(
        |o: OwnerView| file_owner_spec(p, o),
    )
}

fn file_owner_for(project: &Project, owner: &Owner) -> (r: FileOwner)
    ensures
        r@ == file_owner_spec(project@, owner@),
{
    match project.get_team(owner.team_name.as_str()) {
        Some(team) => {
            let team_config_file_path = match strip_prefix(
                project.base_path.as_str(),
                team.path.as_str(),
            ) {
                Some(p) => p,
                None => String::new(),
            };
            FileOwner { team, team_config_file_path, sources: copy_sources(&owner.sources) }
        },
        None => FileOwner::default(),
    }
}

/// The message of a CODEOWNERS file that a team's report cannot be read from.
pub open spec fn out_of_date_message() -> Seq<char> {
    "CODEOWNERS out of date. Run `codeowners generate` to update the CODEOWNERS file"@
}

pub open spec fn close_section(st: (Seq<TeamOwnershipView>, Option<TeamOwnershipView>)) -> Seq<
    TeamOwnershipView,
> {
    match st.1 {
        Some(s) => st.0.push(s),
        None => st.0,
    }
}

/// One line of the CODEOWNERS file read for a team: a comment opens a
/// section, an empty line closes it, and a line that ends with the team adds
/// its glob to the open section; `None` when there is no open section or the
/// line has no space.
pub open spec fn parse_step(
    team: Seq<char>,
    st: (Seq<TeamOwnershipView>, Option<TeamOwnershipView>),
    line: Seq<char>,
) -> Option<(Seq<TeamOwnershipView>, Option<TeamOwnershipView>)> {
    if is_prefix("#"@, line) {
        Some((close_section(st), Some(TeamOwnershipView { heading: line, globs: Seq::empty() })))
    } else if line.len() == 0 {
        Some((close_section(st), None))
    } else if is_suffix(team, line) {
        match (st.1, split_once_spec(line, ' ')) {
            (Some(sec), Some((glob, _))) => Some(
                (st.0, Some(TeamOwnershipView { heading: sec.heading, globs: sec.globs.push(glob) })),
            ),
            _ => None,
        }
    } else {
        Some(st)
    }
}

pub open spec fn parse_lines(team: Seq<char>, ls: Seq<Seq<char>>) -> Option<
    (Seq<TeamOwnershipView>, Option<TeamOwnershipView>),
>
    decreases ls.len(),
{
    if ls.len() == 0 {
        Some((Seq::empty(), None))
    } else {
        match parse_lines(team, ls.drop_last()) {
            Some(st) => parse_step(team, st, ls.last()),
            None => None,
        }
    }
}

proof fn lemma_parse_lines_fails_on(team: Seq<char>, ls: Seq<Seq<char>>, k: int)
    requires
        0 <= k <= ls.len(),
        parse_lines(team, ls.take(k)) is None,
    ensures
        parse_lines(team, ls) is None,
    decreases ls.len() - k,
{
    if k < ls.len() {
        assert(ls.take(k + 1).drop_last() =~= ls.take(k));
        lemma_parse_lines_fails_on(team, ls, k + 1);
    } else {
        assert(ls.take(k) =~= ls);
    }
}

/// Every glob of a team's sections, in section order.
pub open spec fn owned_globs_of(v: Seq<TeamOwnershipView>) -> Seq<Seq<char>> {
    v.map_values(|t: TeamOwnershipView| t.globs).flatten_alt()
}

/// Whether a line of a CODEOWNERS file gives a glob to `team`: it is not a
/// comment, not empty, and ends with the team.
pub open spec fn is_team_line(team: Seq<char>, line: Seq<char>) -> bool {
    !is_prefix("#"@, line) && line.len() > 0 && is_suffix(team, line)
}

/// The globs that the lines `ls` give `team`, in order: the text of each of
/// its lines before the first space.
pub open spec fn team_globs(team: Seq<char>, ls: Seq<Seq<char>>) -> Seq<Seq<char>>
    decreases ls.len(),
{
    if ls.len() == 0 {
        Seq::empty()
    } else {
        let d = team_globs(team, ls.drop_last());
        if is_team_line(team, ls.last()) {
            match split_once_spec(ls.last(), ' ') {
                Some((glob, _)) => d.push(glob),
                None => d,
            }
        } else {
            d
        }
    }
}

/// The globs held by a parse state: those of the closed sections, then those
/// of the open one.
pub open spec fn state_globs(st: (Seq<TeamOwnershipView>, Option<TeamOwnershipView>)) -> Seq<
    Seq<char>,
> {
    owned_globs_of(close_section(st))
}

proof fn lemma_owned_globs_push(v: Seq<TeamOwnershipView>, t: TeamOwnershipView)
    ensures
        owned_globs_of(v.push(t)) == owned_globs_of(v) + t.globs,
{
    let f = |t: TeamOwnershipView| t.globs;
    assert(v.push(t).map_values(f) =~= v.map_values(f).push(t.globs));
    mapper::team_glob_mapper::lemma_flatten_alt_push(v.map_values(f), t.globs);
}

proof fn lemma_parse_lines_globs(team: Seq<char>, ls: Seq<Seq<char>>)
    requires
        parse_lines(team, ls) is Some,
    ensures
        state_globs(parse_lines(team, ls).unwrap()) == team_globs(team, ls),
    decreases ls.len(),
{
    if ls.len() == 0 {
        assert(owned_globs_of(Seq::<TeamOwnershipView>::empty()) =~= Seq::<Seq<char>>::empty());
    } else {
        let init = ls.drop_last();
        let line = ls.last();
        lemma_parse_lines_globs(team, init);
        let st = parse_lines(team, init).unwrap();
        let next = parse_lines(team, ls).unwrap();
        assert(next == parse_step(team, st, line).unwrap());
        let closed = close_section(st);
        if is_prefix("#"@, line) {
            lemma_owned_globs_push(closed, TeamOwnershipView { heading: line, globs: Seq::empty() });
            assert(owned_globs_of(closed) + Seq::<Seq<char>>::empty() =~= owned_globs_of(closed));
        } else if line.len() == 0 {
        } else if is_suffix(team, line) {
            let sec = st.1.unwrap();
            let glob = split_once_spec(line, ' ').unwrap().0;
            lemma_owned_globs_push(st.0, sec);
            lemma_owned_globs_push(
                st.0,
                TeamOwnershipView { heading: sec.heading, globs: sec.globs.push(glob) },
            );
            assert(owned_globs_of(st.0) + sec.globs.push(glob) =~= (owned_globs_of(st.0)
                + sec.globs).push(glob));
        }
    }
}

/// The globs that `parse_for_team` gives a team, across all its sections,
/// are exactly the globs of the team's lines of the file after the
/// disclaimer, in the order of the file.
pub proof fn lemma_parsed_globs_are_team_lines(team: Seq<char>, file: Seq<char>)
    requires
        parse_for_team_spec(team, file) is Some,
    ensures
        owned_globs_of(parse_for_team_spec(team, file).unwrap()) == team_globs(
            team,
            lines_spec(trim_start_spec(replace_spec(file, join_spec(disclaimer_spec(), "\n"@), ""@))),
        ),
{
    let input = trim_start_spec(replace_spec(file, join_spec(disclaimer_spec(), "\n"@), ""@));
    lemma_parse_lines_globs(team, lines_spec(input));
}

/// The sections of a CODEOWNERS file, each with the globs that `team` owns
/// in it; the disclaimer is left out. `None` when the file is out of date.
pub open spec fn parse_for_team_spec(team: Seq<char>, file: Seq<char>) -> Option<
    Seq<TeamOwnershipView>,
> {
    let input = trim_start_spec(replace_spec(file, join_spec(disclaimer_spec(), "\n"@), ""@));
    match parse_lines(team, lines_spec(input)) {
        Some(st) => Some(close_section(st)),
        None => None,
    }
}

pub open spec fn opt_section_view(o: Option<TeamOwnership>) -> Option<TeamOwnershipView> {
    match o {
        Some(s) => Some(s@),
        None => None,
    }
}

/// Moves the open section, if any, to the output.
fn close_open_section(output: &mut Vec<TeamOwnership>, current: Option<TeamOwnership>)
    ensures
        final(output)@.map_values(|t: TeamOwnership| t@) == close_section(
            (old(output)@.map_values(|t: TeamOwnership| t@), opt_section_view(current)),
        ),
{
    if let Some(section) = current {
        let ghost before = output@;
        output.push(section);
        assert(output@.map_values(|t: TeamOwnership| t@) =~= before.map_values(
            |t: TeamOwnership| t@,
        ).push(section@));
    }
}

/// The sections of a CODEOWNERS file, each with the globs that `team_name`
/// owns in it.
pub fn parse_for_team(team_name: String, codeowners_file: &str) -> (r: Result<
    Vec<TeamOwnership>,
    String,
>)
    ensures
        match r {
            Ok(v) => parse_for_team_spec(team_name@, codeowners_file@) == Some(
                v@.map_values(|t: TeamOwnership| t@),
            ),
            Err(e) => parse_for_team_spec(team_name@, codeowners_file@) is None && e@
                == out_of_date_message(),
        },
{
    let disclaimer = join(&FileGenerator::disclaimer(), "\n");
    proof {
        reveal_strlit("\n");
        let d = disclaimer_spec();
        assert(d.len() == 9);
        assert(join_spec(d, "\n"@) == join_spec(d.drop_last(), "\n"@) + "\n"@ + d.last());
    }
    let input = replace(codeowners_file, disclaimer.as_str(), "");
    let trimmed = trim_start(input.as_str());
    let ls = lines(trimmed.as_str());
    let ghost lv = ls@.map_values(|x: String| x@);
    let ghost team = team_name@;
    let mut output: Vec<TeamOwnership> = Vec::new();
    let mut current: Option<TeamOwnership> = None;
    let mut i: usize = 0;
    assert(lv.take(0) =~= Seq::<Seq<char>>::empty());
    assert(output@.map_values(|t: TeamOwnership| t@) =~= Seq::<TeamOwnershipView>::empty());
    while i < ls.len()
        invariant
            i <= ls.len(),
            lv == ls@.map_values(|x: String| x@),
            lv == lines_spec(
                trim_start_spec(
                    replace_spec(codeowners_file@, join_spec(disclaimer_spec(), "\n"@), ""@),
                ),
            ),
            team == team_name@,
            parse_lines(team, lv.take(i as int)) == Some(
                (output@.map_values(|t: TeamOwnership| t@), opt_section_view(current)),
            ),
        decreases ls.len() - i,
    {
        let line = &ls[i];
        let ghost st = (output@.map_values(|t: TeamOwnership| t@), opt_section_view(current));
        proof {
            reveal_strlit("");
            assert(""@ =~= Seq::<char>::empty());
        }
        assert(lv.take(i + 1).drop_last() =~= lv.take(i as int));
        assert(lv.take(i + 1).last() == line@);
        if starts_with(line.as_str(), "#") {
            close_open_section(&mut output, current);
            current = Some(TeamOwnership::new(line.clone()));
            assert(current.unwrap()@.globs =~= Seq::<Seq<char>>::empty());
        } else if str_eq(line.as_str(), "") {
            close_open_section(&mut output, current);
            current = None;
            assert(line@ =~= Seq::<char>::empty());
        } else if ends_with(line.as_str(), team_name.as_str()) {
            assert(line@.len() != 0) by {
                if line@.len() == 0 {
                    assert(line@ =~= ""@);
                }
            }
            match current {
                None => {
                    proof {
                        lemma_parse_lines_fails_on(team, lv, i + 1);
                    }
                    return Err(to_owned_string(
                        "CODEOWNERS out of date. Run `codeowners generate` to update the CODEOWNERS file",
                    ));
                },
                Some(mut section) => {
                    match split_once(line.as_str(), ' ') {
                        None => {
                            proof {
                                lemma_parse_lines_fails_on(team, lv, i + 1);
                            }
                            return Err(to_owned_string(
                                "CODEOWNERS out of date. Run `codeowners generate` to update the CODEOWNERS file",
                            ));
                        },
                        Some((glob, _)) => {
                            let ghost before = section@;
                            section.globs.push(glob);
                            assert(section@.globs =~= before.globs.push(glob@));
                            current = Some(section);
                        },
                    }
                },
            }
        } else {
            assert(line@.len() != 0) by {
                if line@.len() == 0 {
                    assert(line@ =~= ""@);
                }
            }
        }
        i = i + 1;
    }
    assert(lv.take(ls.len() as int) =~= lv);
    close_open_section(&mut output, current);
    Ok(output)
}

/// The ownership of the files of a project.
pub struct Ownership {
    project: Project,
}

/// What `for_team` answers: the team's sections of the CODEOWNERS file, or
/// why there are none.
pub open spec fn for_team_spec(p: ProjectView, name: Seq<char>) -> Result<
    Seq<TeamOwnershipView>,
    Seq<char>,
> {
    if !teams_by_name_spec(p.teams).contains_key(name) {
        Err("Team not found"@)
    } else {
        match p.codeowners_file {
            None => Err("Error::Io"@),
            Some(file) => match parse_for_team_spec(
                teams_by_name_spec(p.teams)[name].github_team,
                file,
            ) {
                Some(v) => Ok(v),
                None => Err(out_of_date_message()),
            },
        }
    }
}

impl Ownership {
    pub closed spec fn project_view(&self) -> ProjectView {
        self.project@
    }

    pub closed spec fn packages(&self) -> Seq<Package> {
        self.project.packages@
    }

    pub open spec fn wf(&self) -> bool {
        project_wf(self.project_view())
    }

    pub fn build(project: Project) -> (r: Self)
        ensures
            r.project_view() == project@,
            r.packages() == project.packages@,
    {
        Ownership { project }
    }

    /// Every problem of the project; `Ok` when there is none.
    pub fn validate(&self) -> (r: Result<(), Errors>)
        requires
            self.wf(),
        ensures
            match r {
                Ok(()) => validation_errors(self.project_view(), self.packages()).len() == 0,
                Err(es) => es@ == validation_errors(self.project_view(), self.packages())
                    && es@.len() > 0,
            },
    {
        Validator::build(&self.project).validate()
    }

    /// The owners of a file, ordered by their teams' names in lower case.
    pub fn for_file(&self, file_path: &str) -> (r: Result<Vec<FileOwner>, Errors>)
        requires
            self.wf(),
        ensures
            r matches Ok(v) && v@.map_values(|o: FileOwner| o@) == for_file_spec(
                self.project_view(),
                self.packages(),
                file_path@,
            ),
    {
        let matchers = all_owner_matchers(&self.project);
        let finder = FileOwnerFinder { owner_matchers: &matchers };
        let owners = finder.find(file_path);
        let sorted = order_owners_by_lower_name(&owners);
        let ghost sv = sorted@.map_values(|o: Owner| o@);
        let ghost p = self.project@;
        let mut result: Vec<FileOwner> = Vec::new();
        let mut i: usize = 0;
        while i < sorted.len()
            invariant
                i <= sorted.len(),
                sv == sorted@.map_values(|o: Owner| o@),
                p == self.project@,
                result@.map_values(|o: FileOwner| o@) == sv.take(i as int).map_values(
                    |o: OwnerView| file_owner_spec(p, o),
                ),
            decreases sorted.len() - i,
        {
            let ghost before = result@;
            result.push(file_owner_for(&self.project, &sorted[i]));
            assert(sv[i as int] == sorted@[i as int]@);
            assert(result@.map_values(|o: FileOwner| o@) =~= before.map_values(|o: FileOwner| o@).push(
                file_owner_spec(p, sv[i as int]),
            ));
            assert(sv.take(i + 1).map_values(|o: OwnerView| file_owner_spec(p, o)) =~= sv.take(
                i as int,
            ).map_values(|o: OwnerView| file_owner_spec(p, o)).push(file_owner_spec(p, sv[i as int])));
            i = i + 1;
        }
        assert(sv.take(sorted.len() as int) =~= sv);
        Ok(result)
    }

    /// The sections of the CODEOWNERS file with the globs that a team owns.
    pub fn for_team(&self, team_name: &str) -> (r: Result<Vec<TeamOwnership>, String>)
        ensures
            match r {
                Ok(v) => for_team_spec(self.project_view(), team_name@) == Ok::<
                    Seq<TeamOwnershipView>,
                    Seq<char>,
                >(v@.map_values(|t: TeamOwnership| t@)),
                Err(e) => for_team_spec(self.project_view(), team_name@) == Err::<
                    Seq<TeamOwnershipView>,
                    Seq<char>,
                >(e@),
            },
    {
        let team = match self.project.get_team(team_name) {
            Some(t) => t,
            None => {
                return Err(to_owned_string("Team not found"));
            },
        };
        match &self.project.codeowners_file {
            None => Err(to_owned_string("Error::Io")),
            Some(file) => parse_for_team(team.github_team, file.as_str()),
        }
    }

    /// The text of the CODEOWNERS file that the project calls for.
    pub fn generate_file(&self) -> (r: String)
        requires
            self.wf(),
        ensures
            r@ == generated_file_spec(self.project_view()),
    {
        FileGenerator::build(&self.project).generate_file()
    }
}

/// `for-file` finds no owner for a file exactly when `validate` reports the
/// file as having none: both ask the same matchers about the same path.
pub proof fn lemma_for_file_empty_iff_unowned(p: ProjectView, packages: Seq<Package>, i: int)
    requires
        0 <= i < p.files.len(),
    ensures
        for_file_spec(p, packages, crate::project::relative_spec(p, p.files[i].path)).len() == 0
            <==> validator::file_ownership_error(p, all_matchers_spec(p, packages), p.files[i])
            == Some(
            validator::ErrorView::FileWithoutOwner {
                path: crate::project::relative_spec(p, p.files[i].path),
            },
        ),
{
    let rel = crate::project::relative_spec(p, p.files[i].path);
    let owners = find_spec(all_matchers_spec(p, packages), rel);
    let keyed = file_owner_finder::lower_keyed(owners);
    let le = |a: (Seq<char>, OwnerView), b: (Seq<char>, OwnerView)| text_le(a.0, b.0);
    proof_text_le_pairs_total_preorder();
    crate::sort::lemma_stable_sorted_is_sorted(keyed, le);
    let sorted = stable_sorted(keyed, le);
    sorted.to_multiset_ensures();
    keyed.to_multiset_ensures();
    assert(sorted.len() == keyed.len());
    if owners.len() > 0 {
        assert(validator::multiple_team_file_owners_spec(owners, rel) != Some(
            validator::ErrorView::FileWithoutOwner { path: rel },
        ));
    }
}

proof fn proof_text_le_pairs_total_preorder()
    ensures
        crate::sort::total_preorder(
            |a: (Seq<char>, OwnerView), b: (Seq<char>, OwnerView)| text_le(a.0, b.0),
        ),
{
    let le = |a: (Seq<char>, OwnerView), b: (Seq<char>, OwnerView)| text_le(a.0, b.0);
    assert forall|a: (Seq<char>, OwnerView), b: (Seq<char>, OwnerView)| #[trigger] le(a, b) || le(
        b,
        a,
    ) by {
        crate::text::lemma_text_lt_total(a.0, b.0);
    }
    assert forall|a: (Seq<char>, OwnerView), b: (Seq<char>, OwnerView), c: (Seq<char>, OwnerView)|
        #[trigger] le(a, b) && #[trigger] le(b, c) implies le(a, c) by {
        if crate::text::text_lt(a.0, b.0) && crate::text::text_lt(b.0, c.0) {
            crate::text::lemma_text_lt_trans(a.0, b.0, c.0);
        }
    }
}

/// `for-file` lists every owner that the matchers find for the path, once:
/// as many owners as found, each found owner reported with its sources (and
/// with its team when the team exists), and each reported owner one of
/// those found.
pub proof fn lemma_for_file_lists_every_owner(p: ProjectView, packages: Seq<Package>, path: Seq<char>)
    ensures
        for_file_spec(p, packages, path).len() == find_spec(all_matchers_spec(p, packages), path).len(),
        forall|j: int|
            0 <= j < find_spec(all_matchers_spec(p, packages), path).len()
                && teams_by_name_spec(p.teams).contains_key(
                (#[trigger] find_spec(all_matchers_spec(p, packages), path)[j]).team_name,
            ) ==> exists|i: int|
                0 <= i < for_file_spec(p, packages, path).len() && for_file_spec(p, packages, path)[i].sources
                    == find_spec(all_matchers_spec(p, packages), path)[j].sources && for_file_spec(
                    p,
                    packages,
                    path,
                )[i].team == teams_by_name_spec(p.teams)[find_spec(
                    all_matchers_spec(p, packages),
                    path,
                )[j].team_name],
        forall|i: int|
            0 <= i < for_file_spec(p, packages, path).len() ==> exists|j: int|
                0 <= j < find_spec(all_matchers_spec(p, packages), path).len() && (#[trigger] for_file_spec(
                    p,
                    packages,
                    path,
                )[i]) == file_owner_spec(p, find_spec(all_matchers_spec(p, packages), path)[j]),
{
    let found = find_spec(all_matchers_spec(p, packages), path);
    file_owner_finder::lemma_owners_by_lower_name_permutes(found);
    let sorted = owners_by_lower_name(found);
    let r = for_file_spec(p, packages, path);
    assert forall|j: int|
        0 <= j < found.len() && teams_by_name_spec(p.teams).contains_key((#[trigger] found[j]).team_name)
        implies exists|i: int|
        0 <= i < r.len() && r[i].sources == found[j].sources && r[i].team == teams_by_name_spec(
            p.teams,
        )[found[j].team_name] by {
        assert(sorted.contains(found[j]));
        let m = choose|m: int| 0 <= m < sorted.len() && sorted[m] == found[j];
        assert(r[m] == file_owner_spec(p, found[j]));
    }
    assert forall|i: int| 0 <= i < r.len() implies exists|j: int|
        0 <= j < found.len() && (#[trigger] r[i]) == file_owner_spec(p, found[j]) by {
        assert(found.contains(sorted[i]));
        let j = choose|j: int| 0 <= j < found.len() && found[j] == sorted[i];
        assert(r[i] == file_owner_spec(p, found[j]));
    }
}

} // verus!
