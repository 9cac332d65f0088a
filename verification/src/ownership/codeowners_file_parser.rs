//! Reading ownership back out of a CODEOWNERS file: its sections, its lines
//! from the highest priority down, and the team that owns a path by them.
use vstd::prelude::*;

use crate::globs::{glob_match, spec_glob_match};
use crate::path::join_path;
use crate::path_utils::relative_to;
use crate::project::{opt_view, Team, TeamView};
use crate::regex_match::regex_replace;
use crate::sort::{sort_texts, stable_sorted};
use crate::strmap::{map_of, StrMap};
use crate::text::{
    concat, is_prefix, lines, lines_spec, split_once, split_once_spec, starts_with, str_eq,
    text_le, to_owned_string,
};

pub use super::parse_for_team;

verus! {

/// A section of a CODEOWNERS file: its heading and its lines, sorted.
#[derive(Debug, Clone, PartialEq, Eq)]
pub struct Section {
    pub heading: String,
    pub lines: Vec<String>,
}

pub struct SectionView {
    pub heading: Seq<char>,
    pub lines: Seq<Seq<char>>,
}

impl View for Section {
    type V = SectionView;

    open spec fn view(&self) -> SectionView {
        SectionView { heading: self.heading@, lines: self.lines@.map_values(|l: String| l@) }
    }
}

/// A section with its lines sorted.
pub open spec fn section_spec(heading: Seq<char>, lines: Seq<Seq<char>>) -> SectionView {
    SectionView {
        heading,
        lines: stable_sorted(lines, |a: Seq<char>, b: Seq<char>| text_le(a, b)),
    }
}

impl Section {
    pub fn new(heading: String, lines: Vec<String>) -> (r: Self)
        ensures
            r@ == section_spec(heading@, lines@.map_values(|l: String| l@)),
    {
        Section { heading, lines: sort_texts(lines) }
    }
}

/// A line whose owner is commented out (`# /path @team`) read as the line
/// itself (`/path @team`).
pub open spec fn unignore_spec(line: Seq<char>) -> Seq<char> {
    if is_prefix("# /"@, line) {
        "/"@ + line.skip(3)
    } else {
        line
    }
}

/// Whether a raw line is one that a section's heading comes right before.
pub open spec fn opens_section(next: Seq<char>) -> bool {
    is_prefix("/"@, next) || is_prefix("# /"@, next)
}

/// The sections read so far, the heading of the open section, and the lines
/// gathered since the last section was closed.
pub struct SectionsState {
    pub sections: Seq<SectionView>,
    pub current: Option<Seq<char>>,
    pub lines: Seq<Seq<char>>,
}

/// One line of the file: an empty line is skipped; a comment right before
/// an ownership line closes the open section and opens a new one, another
/// comment is skipped; any other line is gathered.
pub open spec fn sections_step(raw: Seq<Seq<char>>, i: int, st: SectionsState) -> SectionsState {
    let line = unignore_spec(raw[i]);
    if line.len() == 0 {
        st
    } else if is_prefix("#"@, line) {
        if i + 1 < raw.len() && opens_section(raw[i + 1]) {
            match st.current {
                Some(name) => SectionsState {
                    sections: st.sections.push(section_spec(name, st.lines)),
                    current: Some(line),
                    lines: Seq::empty(),
                },
                None => SectionsState { sections: st.sections, current: Some(line), lines: st.lines },
            }
        } else {
            st
        }
    } else {
        SectionsState { sections: st.sections, current: st.current, lines: st.lines.push(line) }
    }
}

pub open spec fn sections_upto(raw: Seq<Seq<char>>, n: nat) -> SectionsState
    decreases n,
{
    if n == 0 {
        SectionsState { sections: Seq::empty(), current: None, lines: Seq::empty() }
    } else {
        sections_step(raw, n - 1, sections_upto(raw, (n - 1) as nat))
    }
}

/// The sections of a CODEOWNERS file.
pub open spec fn codeowner_sections_spec(file: Seq<char>) -> Seq<SectionView> {
    let raw = lines_spec(file);
    let st = sections_upto(raw, raw.len());
    match st.current {
        Some(name) => st.sections.push(section_spec(name, st.lines)),
        None => st.sections,
    }
}

fn take_lines(v: &mut Vec<String>) -> (r: Vec<String>)
    ensures
        r@ == old(v)@,
        final(v)@.len() == 0,
{
    let mut r: Vec<String> = Vec::new();
    std::mem::swap(v, &mut r);
    r
}

/// The sections of a CODEOWNERS file.
pub fn codeowner_sections(codeowners_file: &str) -> (r: Result<Vec<Section>, String>)
    ensures
        r matches Ok(v) && v@.map_values(|s: Section| s@) == codeowner_sections_spec(
            codeowners_file@,
        ),
{
    let raw = lines(codeowners_file);
    let ghost rv = raw@.map_values(|x: String| x@);
    let mut sections: Vec<Section> = Vec::new();
    let mut current_section: Option<String> = None;
    let mut current_lines: Vec<String> = Vec::new();
    let mut i: usize = 0;
    assert(sections@.map_values(|s: Section| s@) =~= Seq::<SectionView>::empty());
    assert(current_lines@.map_values(|l: String| l@) =~= Seq::<Seq<char>>::empty());
    while i < raw.len()
        invariant
            i <= raw.len(),
            rv == raw@.map_values(|x: String| x@),
            sections_upto(rv, i as nat) == (SectionsState {
                sections: sections@.map_values(|s: Section| s@),
                current: opt_view(current_section),
                lines: current_lines@.map_values(|l: String| l@),
            }),
        decreases raw.len() - i,
    {
        proof {
            reveal_strlit("");
            reveal_strlit("#");
            reveal_strlit("/");
            reveal_strlit("# /");
        }
        assert(rv[i as int] == raw@[i as int]@);
        let replaced = regex_replace("^# \\/", raw[i].as_str(), "/");
        let line = match replaced {
            Some(l) => l,
            None => raw[i].clone(),
        };
        assert(line@ == unignore_spec(rv[i as int]));
        if str_eq(line.as_str(), "") {
            assert(line@ =~= Seq::<char>::empty());
        } else {
            assert(line@.len() != 0) by {
                if line@.len() == 0 {
                    assert(line@ =~= ""@);
                }
            }
            if starts_with(line.as_str(), "#") {
                let opens = if i + 1 < raw.len() {
                    assert(rv[i + 1] == raw@[i + 1]@);
                    starts_with(raw[i + 1].as_str(), "/") || starts_with(raw[i + 1].as_str(), "# /")
                } else {
                    false
                };
                if opens {
                    let taken = current_section;
                    current_section = None;
                    match taken {
                        Some(section_name) => {
                            let ghost before = sections@;
                            let gathered = take_lines(&mut current_lines);
                            sections.push(Section::new(section_name, gathered));
                            assert(sections@.map_values(|s: Section| s@) =~= before.map_values(
                                |s: Section| s@,
                            ).push(sections@.last()@));
                            assert(current_lines@.map_values(|l: String| l@) =~= Seq::<
                                Seq<char>,
                            >::empty());
                        },
                        None => {},
                    }
                    current_section = Some(line);
                }
            } else {
                let ghost before = current_lines@;
                current_lines.push(line);
                assert(current_lines@.map_values(|l: String| l@) =~= before.map_values(
                    |l: String| l@,
                ).push(current_lines@.last()@));
            }
        }
        i = i + 1;
    }
    match current_section {
        Some(section_name) => {
            let ghost before = sections@;
            sections.push(Section::new(section_name, current_lines));
            assert(sections@.map_values(|s: Section| s@) =~= before.map_values(|s: Section| s@).push(
                sections@.last()@,
            ));
        },
        None => {},
    }
    Ok(sections)
}

/// The lines of all sections, the last line of the last section first.
pub open spec fn stripped_lines_spec(file: Seq<char>) -> Seq<Seq<char>> {
    codeowner_sections_spec(file).map_values(|s: SectionView| s.lines).flatten_alt().reverse()
}

/// The ownership lines of a CODEOWNERS file, from the highest priority
/// down: a later line overrides an earlier one.
pub fn stripped_lines_by_priority(codeowners_file: &str) -> (r: Vec<String>)
    ensures
        r@.map_values(|l: String| l@) == stripped_lines_spec(codeowners_file@),
{
    let sections = match codeowner_sections(codeowners_file) {
        Ok(s) => s,
        Err(_) => Vec::new(),
    };
    let ghost sv = sections@.map_values(|s: Section| s@);
    let ghost f = |s: SectionView| s.lines;
    let mut all: Vec<String> = Vec::new();
    let mut i: usize = 0;
    assert(sv.take(0).map_values(f).flatten_alt() =~= Seq::<Seq<char>>::empty());
    while i < sections.len()
        invariant
            i <= sections.len(),
            sv == sections@.map_values(|s: Section| s@),
            f == (|s: SectionView| s.lines),
            all@.map_values(|l: String| l@) == sv.take(i as int).map_values(f).flatten_alt(),
        decreases sections.len() - i,
    {
        let section = &sections[i];
        let ghost start = all@.map_values(|l: String| l@);
        let ghost lv = section@.lines;
        let mut j: usize = 0;
        while j < section.lines.len()
            invariant
                j <= section.lines.len(),
                lv == section@.lines,
                all@.map_values(|l: String| l@) == start + lv.take(j as int),
            decreases section.lines.len() - j,
        {
            let ghost before = all@;
            all.push(section.lines[j].clone());
            assert(all@.map_values(|l: String| l@) =~= before.map_values(|l: String| l@).push(
                lv[j as int],
            ));
            assert(lv.take(j + 1) =~= lv.take(j as int).push(lv[j as int]));
            j = j + 1;
        }
        proof {
            assert(lv.take(section.lines.len() as int) =~= lv);
            assert(sv[i as int] == section@);
            assert(sv.take(i + 1).map_values(f) =~= sv.take(i as int).map_values(f).push(lv));
            super::mapper::team_glob_mapper::lemma_flatten_alt_push(sv.take(i as int).map_values(f), lv);
        }
        i = i + 1;
    }
    assert(sv.take(sections.len() as int) =~= sv);
    let ghost av = all@.map_values(|l: String| l@);
    let mut reversed: Vec<String> = Vec::new();
    let mut k: usize = all.len();
    while k > 0
        invariant
            k <= all.len(),
            av == all@.map_values(|l: String| l@),
            reversed@.map_values(|l: String| l@) == av.skip(k as int).reverse(),
        decreases k,
    {
        let ghost before = reversed@;
        reversed.push(all[k - 1].clone());
        assert(reversed@.map_values(|l: String| l@) =~= before.map_values(|l: String| l@).push(
            av[k - 1],
        ));
        assert(av.skip(k - 1).reverse() =~= av.skip(k as int).reverse().push(av[k - 1]));
        k = k - 1;
    }
    assert(av.skip(0) =~= av);
    reversed
}

/// Where the CODEOWNERS file and the team files of a project are.
pub struct Parser {
    pub project_root: String,
    pub codeowners_file_path: String,
    pub team_file_globs: Vec<String>,
}

/// A path as the lines of a CODEOWNERS file write it: with a leading `/`.
pub open spec fn prefixed_spec(p: Seq<char>) -> Seq<char> {
    if is_prefix("/"@, p) {
        p
    } else {
        "/"@ + p
    }
}

/// Each line split at its first space into a glob and a team; `None` when a
/// line has no space.
pub open spec fn parse_entries(ls: Seq<Seq<char>>) -> Option<Seq<(Seq<char>, Seq<char>)>>
    decreases ls.len(),
{
    if ls.len() == 0 {
        Some(Seq::empty())
    } else {
        match (parse_entries(ls.drop_last()), split_once_spec(ls.last(), ' ')) {
            (Some(es), Some(pair)) => Some(es.push(pair)),
            _ => None,
        }
    }
}

/// The team of the first entry whose glob matches the path.
pub open spec fn first_matching_team(entries: Seq<(Seq<char>, Seq<char>)>, path: Seq<char>) -> Option<
    Seq<char>,
>
    decreases entries.len(),
{
    if entries.len() == 0 {
        None
    } else if spec_glob_match(entries[0].0, path) {
        Some(entries[0].1)
    } else {
        first_matching_team(entries.drop_first(), path)
    }
}

/// The teams under their GitHub teams, a later team hiding an earlier one.
pub open spec fn teams_by_github_spec(teams: Seq<TeamView>) -> Map<Seq<char>, TeamView> {
    map_of(teams.map_values(|t: TeamView| (t.github_team, t)))
}

/// The team that owns a path by the entries of a CODEOWNERS file.
pub open spec fn codeowners_team_spec(
    entries: Seq<(Seq<char>, Seq<char>)>,
    by_github: Map<Seq<char>, TeamView>,
    path: Seq<char>,
) -> Option<TeamView> {
    match first_matching_team(entries, prefixed_spec(path)) {
        Some(n) => if by_github.contains_key(n) {
            Some(by_github[n])
        } else {
            None
        },
        None => None,
    }
}

pub open spec fn opt_team_view(t: Option<Team>) -> Option<TeamView> {
    match t {
        Some(t) => Some(t@),
        None => None,
    }
}

/// The paths of `ps`, each once, where it first occurs.
pub open spec fn distinct_paths(ps: Seq<Seq<char>>) -> Seq<Seq<char>>
    decreases ps.len(),
{
    if ps.len() == 0 {
        ps
    } else {
        let d = distinct_paths(ps.drop_last());
        if d.contains(ps.last()) {
            d
        } else {
            d.push(ps.last())
        }
    }
}

/// Whether some entry of `v` is under the path `p`.
fn has_path(v: &Vec<(String, Option<Team>)>, p: &str) -> (r: bool)
    ensures
        r == exists|j: int| 0 <= j < v.len() && (#[trigger] v@[j]).0@ == p@,
{
    let mut j: usize = 0;
    while j < v.len()
        invariant
            j <= v.len(),
            forall|k: int| 0 <= k < j ==> (#[trigger] v@[k]).0@ != p@,
        decreases v.len() - j,
    {
        if str_eq(v[j].0.as_str(), p) {
            return true;
        }
        j = j + 1;
    }
    false
}

/// What `teams_from_files_paths` answers: each path with the team that owns
/// it by the CODEOWNERS file, or `None` when a line of the file has no
/// space.
pub open spec fn teams_for_paths_spec(
    paths: Seq<Seq<char>>,
    priority_lines: Seq<Seq<char>>,
    teams: Seq<TeamView>,
) -> Option<Seq<(Seq<char>, Option<TeamView>)>> {
    if paths.len() == 0 {
        Some(Seq::empty())
    } else {
        match parse_entries(priority_lines) {
            Some(es) => Some(
                distinct_paths(paths).map_values(
                    |p: Seq<char>| (p, codeowners_team_spec(es, teams_by_github_spec(teams), p)),
                ),
            ),
            None => None,
        }
    }
}

/// The teams under their GitHub teams.
pub fn teams_by_github_team_name(teams: &Vec<Team>) -> (r: StrMap<Team>)
    ensures
        r@ == teams_by_github_spec(teams@.map_values(|t: Team| t@)),
{
    let ghost tv = teams@.map_values(|t: Team| t@);
    let ghost f = |t: TeamView| (t.github_team, t);
    let mut r: StrMap<Team> = StrMap::new();
    let mut i: usize = 0;
    while i < teams.len()
        invariant
            i <= teams.len(),
            tv == teams@.map_values(|t: Team| t@),
            f == (|t: TeamView| (t.github_team, t)),
            r@ == map_of(tv.take(i as int).map_values(f)),
        decreases teams.len() - i,
    {
        let t = &teams[i];
        r.insert(t.github_team.clone(), t.duplicate());
        proof {
            assert(tv.take(i + 1).map_values(f) =~= tv.take(i as int).map_values(f).push(f(tv[i as int])));
            assert(tv.take(i + 1).map_values(f).drop_last() =~= tv.take(i as int).map_values(f));
        }
        i = i + 1;
    }
    assert(tv.take(teams.len() as int) =~= tv);
    r
}

fn parse_lines_into_entries(priority_lines: &Vec<String>) -> (r: Option<Vec<(String, String)>>)
    ensures
        match r {
            Some(es) => parse_entries(priority_lines@.map_values(|l: String| l@)) == Some(
                es@.map_values(|e: (String, String)| (e.0@, e.1@)),
            ),
            None => parse_entries(priority_lines@.map_values(|l: String| l@)) is None,
        },
{
    let ghost lv = priority_lines@.map_values(|l: String| l@);
    let ghost f = |e: (String, String)| (e.0@, e.1@);
    let mut entries: Vec<(String, String)> = Vec::new();
    let mut i: usize = 0;
    while i < priority_lines.len()
        invariant
            i <= priority_lines.len(),
            lv == priority_lines@.map_values(|l: String| l@),
            f == (|e: (String, String)| (e.0@, e.1@)),
            parse_entries(lv.take(i as int)) == Some(entries@.map_values(f)),
        decreases priority_lines.len() - i,
    {
        assert(lv.take(i + 1).drop_last() =~= lv.take(i as int));
        assert(lv.take(i + 1).last() == priority_lines@[i as int]@);
        match split_once(priority_lines[i].as_str(), ' ') {
            Some(pair) => {
                let ghost before = entries@;
                entries.push(pair);
                assert(entries@.map_values(f) =~= before.map_values(f).push(f(entries@.last())));
            },
            None => {
                proof {
                    lemma_parse_entries_fails_on(lv, i as int + 1);
                }
                return None;
            },
        }
        i = i + 1;
    }
    assert(lv.take(priority_lines.len() as int) =~= lv);
    Some(entries)
}

proof fn lemma_parse_entries_fails_on(ls: Seq<Seq<char>>, k: int)
    requires
        0 <= k <= ls.len(),
        parse_entries(ls.take(k)) is None,
    ensures
        parse_entries(ls) is None,
    decreases ls.len() - k,
{
    if k < ls.len() {
        assert(ls.take(k + 1).drop_last() =~= ls.take(k));
        lemma_parse_entries_fails_on(ls, k + 1);
    } else {
        assert(ls.take(k) =~= ls);
    }
}

fn team_for_prefixed_path(
    entries: &Vec<(String, String)>,
    by_github: &StrMap<Team>,
    path: &str,
) -> (r: Option<Team>)
    ensures
        opt_team_view(r) == codeowners_team_spec(
            entries@.map_values(|e: (String, String)| (e.0@, e.1@)),
            by_github@,
            path@,
        ),
{
    let ghost ev = entries@.map_values(|e: (String, String)| (e.0@, e.1@));
    proof {
        reveal_strlit("/");
    }
    let prefixed = if starts_with(path, "/") {
        to_owned_string(path)
    } else {
        concat("/", path)
    };
    let mut i: usize = 0;
    assert(ev.skip(0) =~= ev);
    while i < entries.len()
        invariant
            i <= entries.len(),
            ev == entries@.map_values(|e: (String, String)| (e.0@, e.1@)),
            prefixed@ == prefixed_spec(path@),
            first_matching_team(ev, prefixed@) == first_matching_team(ev.skip(i as int), prefixed@),
        decreases entries.len() - i,
    {
        assert(ev.skip(i as int)[0] == ev[i as int]);
        assert(ev.skip(i as int).drop_first() =~= ev.skip(i + 1));
        if glob_match(entries[i].0.as_str(), prefixed.as_str()) {
            return match by_github.get(entries[i].1.as_str()) {
                Some(t) => Some(t.duplicate()),
                None => None,
            };
        }
        i = i + 1;
    }
    assert(ev.skip(entries.len() as int) =~= Seq::<(Seq<char>, Seq<char>)>::empty());
    None
}

impl Parser {
    /// For each path, the team that owns it by the CODEOWNERS file. The
    /// ownership lines come from `stripped_lines_by_priority` of the file's
    /// text; the teams are those the team files describe. `Err` when a line
    /// has no space.
    pub fn teams_from_files_paths(
        &self,
        file_paths: &Vec<String>,
        priority_lines: &Vec<String>,
        teams: &Vec<Team>,
    ) -> (r: Result<Vec<(String, Option<Team>)>, String>)
        ensures
            match r {
                Ok(v) => teams_for_paths_spec(
                    file_paths@.map_values(|p: String| p@),
                    priority_lines@.map_values(|l: String| l@),
                    teams@.map_values(|t: Team| t@),
                ) == Some(v@.map_values(|e: (String, Option<Team>)| (e.0@, opt_team_view(e.1)))),
                Err(e) => teams_for_paths_spec(
                    file_paths@.map_values(|p: String| p@),
                    priority_lines@.map_values(|l: String| l@),
                    teams@.map_values(|t: Team| t@),
                ) is None && e@ == "Invalid line"@,
            },
    {
        let ghost pv = file_paths@.map_values(|p: String| p@);
        let ghost rf = |e: (String, Option<Team>)| (e.0@, opt_team_view(e.1));
        if file_paths.len() == 0 {
            let r: Vec<(String, Option<Team>)> = Vec::new();
            assert(r@.map_values(rf) =~= Seq::<(Seq<char>, Option<TeamView>)>::empty());
            return Ok(r);
        }
        let entries = match parse_lines_into_entries(priority_lines) {
            Some(es) => es,
            None => {
                return Err(to_owned_string("Invalid line"));
            },
        };
        let ghost ev = entries@.map_values(|e: (String, String)| (e.0@, e.1@));
        let by_github = teams_by_github_team_name(teams);
        let ghost g = |p: Seq<char>| (p, codeowners_team_spec(ev, by_github@, p));
        let mut result: Vec<(String, Option<Team>)> = Vec::new();
        let mut i: usize = 0;
        assert(pv.take(0) =~= Seq::<Seq<char>>::empty());
        while i < file_paths.len()
            invariant
                i <= file_paths.len(),
                pv == file_paths@.map_values(|p: String| p@),
                ev == entries@.map_values(|e: (String, String)| (e.0@, e.1@)),
                rf == (|e: (String, Option<Team>)| (e.0@, opt_team_view(e.1))),
                g == (|p: Seq<char>| (p, codeowners_team_spec(ev, by_github@, p))),
                result@.map_values(rf) == distinct_paths(pv.take(i as int)).map_values(g),
            decreases file_paths.len() - i,
        {
            let path = &file_paths[i];
            let ghost d = distinct_paths(pv.take(i as int));
            assert(pv.take(i + 1).drop_last() =~= pv.take(i as int));
            assert(pv.take(i + 1).last() == path@);
            assert(result@.map_values(rf).len() == result@.len());
            assert(d.map_values(g).len() == d.len());
            assert forall|j: int| 0 <= j < result@.len() implies (#[trigger] result@[j]).0@ == d[j] by {
                assert(result@.map_values(rf)[j] == d.map_values(g)[j]);
            }
            if has_path(&result, path.as_str()) {
                proof {
                    let j = choose|j: int| 0 <= j < result@.len() && (#[trigger] result@[j]).0@ == path@;
                    assert(d[j] == path@);
                    assert(d.contains(path@));
                }
            } else {
                proof {
                    if d.contains(path@) {
                        let j = choose|j: int| 0 <= j < d.len() && d[j] == path@;
                        assert(result@[j].0@ == d[j]);
                    }
                }
                let team = team_for_prefixed_path(&entries, &by_github, path.as_str());
                let ghost before = result@;
                result.push((path.clone(), team));
                assert(result@.map_values(rf) =~= before.map_values(rf).push(g(path@)));
                assert(d.push(path@).map_values(g) =~= d.map_values(g).push(g(path@)));
            }
            i = i + 1;
        }
        assert(pv.take(file_paths.len() as int) =~= pv);
        Ok(result)
    }

    /// The team that owns one path by the CODEOWNERS file.
    pub fn team_from_file_path(
        &self,
        file_path: &str,
        priority_lines: &Vec<String>,
        teams: &Vec<Team>,
    ) -> (r: Result<Option<Team>, String>)
        ensures
            match r {
                Ok(t) => teams_for_paths_spec(
                    seq![file_path@],
                    priority_lines@.map_values(|l: String| l@),
                    teams@.map_values(|t: Team| t@),
                ) == Some(seq![(file_path@, opt_team_view(t))]),
                Err(e) => teams_for_paths_spec(
                    seq![file_path@],
                    priority_lines@.map_values(|l: String| l@),
                    teams@.map_values(|t: Team| t@),
                ) is None && e@ == "Invalid line"@,
            },
    {
        let mut paths: Vec<String> = Vec::new();
        paths.push(file_path.to_owned());
        assert(paths@.map_values(|p: String| p@) =~= seq![file_path@]);
        assert(distinct_paths(seq![file_path@]) == seq![file_path@]) by {
            reveal_with_fuel(distinct_paths, 2);
            assert(seq![file_path@].drop_last() =~= Seq::<Seq<char>>::empty());
            assert(distinct_paths(Seq::<Seq<char>>::empty()) =~= Seq::<Seq<char>>::empty());
        }
        match self.teams_from_files_paths(&paths, priority_lines, teams) {
            Ok(found) => {
                let ghost fv = found@.map_values(|e: (String, Option<Team>)| (e.0@, opt_team_view(e.1)));
                assert(fv.len() == 1);
                assert(fv[0] == (found@[0].0@, opt_team_view(found@[0].1)));
                let mut found = found;
                let (_, team) = found.remove(0);
                Ok(team)
            },
            Err(e) => Err(e),
        }
    }

    /// The team file globs, each under the project's root.
    pub fn absolute_team_files_globs(&self) -> (r: Vec<String>)
        ensures
            r@.map_values(|g: String| g@) == self.team_file_globs@.map_values(
                |g: String| self.project_root@ + "/"@ + g@,
            ),
    {
        let ghost gv = self.team_file_globs@;
        let mut r: Vec<String> = Vec::new();
        let mut i: usize = 0;
        while i < self.team_file_globs.len()
            invariant
                i <= self.team_file_globs.len(),
                gv == self.team_file_globs@,
                r@.map_values(|g: String| g@) == gv.take(i as int).map_values(
                    |g: String| self.project_root@ + "/"@ + g@,
                ),
            decreases self.team_file_globs.len() - i,
        {
            let mut g = concat(self.project_root.as_str(), "/");
            crate::text::push_str(&mut g, self.team_file_globs[i].as_str());
            let ghost before = r@;
            r.push(g);
            assert(r@.map_values(|g: String| g@) =~= before.map_values(|g: String| g@).push(
                self.project_root@ + "/"@ + gv[i as int]@,
            ));
            assert(gv.take(i + 1).map_values(|g: String| self.project_root@ + "/"@ + g@) =~= gv.take(
                i as int,
            ).map_values(|g: String| self.project_root@ + "/"@ + g@).push(
                self.project_root@ + "/"@ + gv[i as int]@,
            ));
            i = i + 1;
        }
        assert(gv.take(self.team_file_globs.len() as int) =~= gv);
        r
    }
}

/// The team that the CODEOWNERS file gives a path is that of the first
/// line, in priority order, whose glob matches the path: no line before it
/// matches.
pub proof fn lemma_first_matching_line_wins(entries: Seq<(Seq<char>, Seq<char>)>, path: Seq<char>)
    ensures
        match first_matching_team(entries, path) {
            Some(team) => exists|i: int|
                0 <= i < entries.len() && spec_glob_match(#[trigger] entries[i].0, path)
                    && entries[i].1 == team && forall|j: int|
                    0 <= j < i ==> !spec_glob_match(#[trigger] entries[j].0, path),
            None => forall|j: int| 0 <= j < entries.len() ==> !spec_glob_match(#[trigger] entries[j].0, path),
        },
    decreases entries.len(),
{
    if entries.len() > 0 {
        let rest = entries.drop_first();
        lemma_first_matching_line_wins(rest, path);
        if spec_glob_match(entries[0].0, path) {
            assert(spec_glob_match(entries[0].0, path) && entries[0].1 == entries[0].1);
        } else {
            match first_matching_team(rest, path) {
                Some(team) => {
                    let i = choose|i: int|
                        0 <= i < rest.len() && spec_glob_match(#[trigger] rest[i].0, path)
                            && rest[i].1 == team && forall|j: int|
                            0 <= j < i ==> !spec_glob_match(#[trigger] rest[j].0, path);
                    assert(entries[i + 1] == rest[i]);
                    assert forall|j: int| 0 <= j < i + 1 implies !spec_glob_match(
                        #[trigger] entries[j].0,
                        path,
                    ) by {
                        if j > 0 {
                            assert(entries[j] == rest[j - 1]);
                        }
                    }
                },
                None => {
                    assert forall|j: int| 0 <= j < entries.len() implies !spec_glob_match(
                        #[trigger] entries[j].0,
                        path,
                    ) by {
                        if j > 0 {
                            assert(entries[j] == rest[j - 1]);
                        }
                    }
                },
            }
        }
    }
}

} // verus!
