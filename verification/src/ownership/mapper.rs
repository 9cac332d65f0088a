//! The ways a file can get an owner, and the matchers that decide, for a path,
//! which team owns it by one such way.
use vstd::prelude::*;

use crate::globs::{any_glob_matches, glob_list_matches, glob_match, spec_glob_match};
use crate::path::{components, path_components, render};
use crate::project::{copy_strings, opt_view};
use crate::strmap::StrMap;
use crate::text::{concat, count_char, count_char_in, push_str, to_owned_string};

pub mod directory_mapper;
pub mod escaper;
pub mod package_mapper;
pub mod team_file_mapper;
pub mod team_gem_mapper;
pub mod team_glob_mapper;
pub mod team_yml_mapper;

pub use directory_mapper::DirectoryMapper;
pub use team_file_mapper::TeamFileMapper;
pub use package_mapper::{JavascriptPackageMapper, PackageMapper, RubyPackageMapper};
pub use team_gem_mapper::TeamGemMapper;
pub use team_glob_mapper::TeamGlobMapper;
pub use team_yml_mapper::TeamYmlMapper;






use super::Entry;

verus! {

pub type TeamName = String;

/// A source of ownership: a section of the CODEOWNERS file and a way in which
/// a file is matched to a team.
pub trait Mapper {
    /// The heading of the mapper's section in the CODEOWNERS file.
    fn name(&self) -> String;

    /// The lines of the mapper's section in the CODEOWNERS file.
    fn entries(&self) -> Vec<Entry>;

    /// The matchers that tell which team owns a path by this mapper's rule.
    fn owner_matchers(&self) -> Vec<OwnerMatcher>;
}

#[derive(Debug, PartialEq, Clone)]
pub enum Source {
    Directory(String),
    AnnotatedFile,
    TeamGem,
    TeamGlob(String),
    Package(String, String),
    TeamYml,
}

pub enum SourceView {
    Directory(Seq<char>),
    AnnotatedFile,
    TeamGem,
    TeamGlob(Seq<char>),
    Package(Seq<char>, Seq<char>),
    TeamYml,
}

impl View for Source {
    type V = SourceView;

    open spec fn view(&self) -> SourceView {
        match self {
            Source::Directory(p) => SourceView::Directory(p@),
            Source::AnnotatedFile => SourceView::AnnotatedFile,
            Source::TeamGem => SourceView::TeamGem,
            Source::TeamGlob(g) => SourceView::TeamGlob(g@),
            Source::Package(p, g) => SourceView::Package(p@, g@),
            Source::TeamYml => SourceView::TeamYml,
        }
    }
}

/// How a source of ownership is described to the user.
pub open spec fn source_text(s: SourceView) -> Seq<char> {
    match s {
        SourceView::Directory(p) => "Owner specified in `"@ + p + "/.codeowner`"@,
        SourceView::AnnotatedFile => "Owner annotation at the top of the file"@,
        SourceView::TeamGem => "Owner specified in Team YML's `owned_gems`"@,
        SourceView::TeamGlob(g) => "Owner specified in Team YML as an owned_glob `"@ + g + "`"@,
        SourceView::Package(p, g) => "Owner defined in `"@ + p + "` with implicity owned glob: `"@
            + g + "`"@,
        SourceView::TeamYml => "Teams own their configuration files"@,
    }
}

/// The depth of a directory source: the number of separators in its path.
pub open spec fn source_len(s: SourceView) -> nat {
    match s {
        SourceView::Directory(p) => count_char(p, '/'),
        _ => 0,
    }
}

impl Source {
    /// A fresh source equal to this one.
    pub fn duplicate(&self) -> (r: Self)
        ensures
            r@ == self@,
    {
        match self {
            Source::Directory(p) => Source::Directory(p.clone()),
            Source::AnnotatedFile => Source::AnnotatedFile,
            Source::TeamGem => Source::TeamGem,
            Source::TeamGlob(g) => Source::TeamGlob(g.clone()),
            Source::Package(p, g) => Source::Package(p.clone(), g.clone()),
            Source::TeamYml => Source::TeamYml,
        }
    }

    /// The description of the source (its `Display`).
    pub fn to_text(&self) -> (r: String)
        ensures
            r@ == source_text(self@),
    {
        match self {
            Source::Directory(p) => {
                let mut r = to_owned_string("Owner specified in `");
                push_str(&mut r, p.as_str());
                push_str(&mut r, "/.codeowner`");
                r
            },
            Source::AnnotatedFile => to_owned_string("Owner annotation at the top of the file"),
            Source::TeamGem => to_owned_string("Owner specified in Team YML's `owned_gems`"),
            Source::TeamGlob(g) => {
                let mut r = to_owned_string("Owner specified in Team YML as an owned_glob `");
                push_str(&mut r, g.as_str());
                push_str(&mut r, "`");
                r
            },
            Source::Package(p, g) => {
                let mut r = to_owned_string("Owner defined in `");
                push_str(&mut r, p.as_str());
                push_str(&mut r, "` with implicity owned glob: `");
                push_str(&mut r, g.as_str());
                push_str(&mut r, "`");
                r
            },
            Source::TeamYml => to_owned_string("Teams own their configuration files"),
        }
    }

    /// The depth of a directory source; zero for the other sources.
    pub fn len(&self) -> (r: usize)
        ensures
            r == source_len(self@),
    {
        match self {
            Source::Directory(p) => count_char_in(p.as_str(), '/'),
            _ => 0,
        }
    }

    pub fn is_directory(&self) -> (r: bool)
        ensures
            r == (self@ is Directory),
    {
        match self {
            Source::Directory(_) => true,
            _ => false,
        }
    }

    pub fn is_team_yml(&self) -> (r: bool)
        ensures
            r == (self@ is TeamYml),
    {
        match self {
            Source::TeamYml => true,
            _ => false,
        }
    }
}

pub enum OwnerMatcher {
    ExactMatches(StrMap<String>, Source),
    Glob { glob: String, subtracted_globs: Vec<String>, team_name: TeamName, source: Source },
}

pub enum OwnerMatcherView {
    ExactMatches(Map<Seq<char>, Seq<char>>, SourceView),
    Glob {
        glob: Seq<char>,
        subtracted_globs: Seq<Seq<char>>,
        team_name: Seq<char>,
        source: SourceView,
    },
}

impl View for OwnerMatcher {
    type V = OwnerMatcherView;

    open spec fn view(&self) -> OwnerMatcherView {
        match self {
            OwnerMatcher::ExactMatches(m, s) => OwnerMatcherView::ExactMatches(m@, s@),
            OwnerMatcher::Glob { glob, subtracted_globs, team_name, source } => OwnerMatcherView::Glob {
                glob: glob@,
                subtracted_globs: subtracted_globs@.map_values(|g: String| g@),
                team_name: team_name@,
                source: source@,
            },
        }
    }
}

pub open spec fn matcher_source(m: OwnerMatcherView) -> SourceView {
    match m {
        OwnerMatcherView::ExactMatches(_, s) => s,
        OwnerMatcherView::Glob { source, .. } => source,
    }
}

/// Whether a candidate subtracted glob concerns `glob`: either one matches
/// the other.
pub open spec fn overlaps(glob: Seq<char>, candidate: Seq<char>) -> bool {
    spec_glob_match(candidate, glob) || spec_glob_match(glob, candidate)
}

/// The path text with its components written out again, as a `PathBuf`
/// key compares.
pub open spec fn normal_path(p: Seq<char>) -> Seq<char> {
    render(components(p))
}

/// The team that a matcher gives `path`: a glob matcher, when its glob
/// matches the path and no subtracted glob does; an exact matcher, when the
/// path is one of its keys.
pub open spec fn owner_for_spec(m: OwnerMatcherView, path: Seq<char>) -> Option<Seq<char>> {
    match m {
        OwnerMatcherView::Glob { glob, subtracted_globs, team_name, .. } => {
            if spec_glob_match(glob, path) && !any_glob_matches(subtracted_globs, path) {
                Some(team_name)
            } else {
                None
            }
        },
        OwnerMatcherView::ExactMatches(map, _) => {
            if map.contains_key(normal_path(path)) {
                Some(map[normal_path(path)])
            } else {
                None
            }
        },
    }
}

/// The path text with its components written out again.
pub fn normalize_path(p: &str) -> (r: String)
    ensures
        r@ == normal_path(p@),
{
    let cs = path_components(p);
    let mut r = String::new();
    let ghost cv = cs@.map_values(|x: Vec<char>| x@);
    let mut start: usize = 0;
    if cs.len() > 0 && cs[0].len() == 1 && cs[0][0] == '/' {
        assert(cv[0] =~= seq!['/']);
        r.push('/');
        start = 1;
    }
    proof {
        if start == 0 && cv.len() > 0 && cv[0] == seq!['/'] {
            assert(cs@[0]@.len() == 1);
        }
    }
    let ghost tail = cv.skip(start as int);
    let mut parts: Vec<String> = Vec::new();
    let mut i: usize = start;
    while i < cs.len()
        invariant
            start <= i <= cs.len(),
            cv == cs@.map_values(|x: Vec<char>| x@),
            tail == cv.skip(start as int),
            parts@.map_values(|x: String| x@) == tail.take(i - start),
        decreases cs.len() - i,
    {
        let ghost before = parts@;
        parts.push(crate::text::string_of(&cs[i]));
        assert(parts@.map_values(|x: String| x@) =~= before.map_values(|x: String| x@).push(
            cv[i as int],
        ));
        assert(tail.take(i - start + 1) =~= tail.take(i - start).push(cv[i as int]));
        i = i + 1;
    }
    assert(tail.take(cs.len() - start) =~= tail);
    let joined = crate::text::join(&parts, "/");
    proof {
        reveal_strlit("/");
        assert("/"@ =~= seq!['/']);
    }
    push_str(&mut r, joined.as_str());
    proof {
        if start == 1 {
            assert(tail =~= cv.drop_first());
        } else {
            assert(tail =~= cv);
            assert(r@ =~= joined@);
        }
    }
    r
}

impl OwnerMatcher {
    /// A glob matcher that keeps, of the candidate subtracted globs, those
    /// that overlap `glob`.
    pub fn new_glob_with_candidate_subtracted_globs(
        glob: String,
        candidate_subtracted_globs: &Vec<String>,
        team_name: TeamName,
        source: Source,
    ) -> (r: Self)
        ensures
            r@ == (OwnerMatcherView::Glob {
                glob: glob@,
                subtracted_globs: candidate_subtracted_globs@.map_values(|g: String| g@).filter(
                    |c: Seq<char>| overlaps(glob@, c),
                ),
                team_name: team_name@,
                source: source@,
            }),
    {
        let ghost cv = candidate_subtracted_globs@.map_values(|g: String| g@);
        let ghost pred = |c: Seq<char>| overlaps(glob@, c);
        let mut kept: Vec<String> = Vec::new();
        let mut i: usize = 0;
        while i < candidate_subtracted_globs.len()
            invariant
                i <= candidate_subtracted_globs.len(),
                cv == candidate_subtracted_globs@.map_values(|g: String| g@),
                pred == (|c: Seq<char>| overlaps(glob@, c)),
                kept@.map_values(|g: String| g@) == cv.take(i as int).filter(pred),
            decreases candidate_subtracted_globs.len() - i,
        {
            let c = &candidate_subtracted_globs[i];
            let keep = glob_match(c.as_str(), glob.as_str()) || glob_match(
                glob.as_str(),
                c.as_str(),
            );
            proof {
                reveal(Seq::filter);
                assert(cv.take(i + 1).drop_last() =~= cv.take(i as int));
                assert(cv.take(i + 1).last() == c@);
            }
            if keep {
                let ghost before = kept@;
                kept.push(c.clone());
                assert(kept@.map_values(|g: String| g@) =~= before.map_values(|g: String| g@).push(
                    c@,
                ));
            }
            i = i + 1;
        }
        assert(cv.take(candidate_subtracted_globs.len() as int) =~= cv);
        OwnerMatcher::Glob { glob, subtracted_globs: kept, team_name, source }
    }

    /// A glob matcher with nothing subtracted.
    pub fn new_glob(glob: String, team_name: TeamName, source: Source) -> (r: Self)
        ensures
            r@ == (OwnerMatcherView::Glob {
                glob: glob@,
                subtracted_globs: Seq::empty(),
                team_name: team_name@,
                source: source@,
            }),
    {
        let r = OwnerMatcher::Glob { glob, subtracted_globs: Vec::new(), team_name, source };
        assert(r@->subtracted_globs =~= Seq::<Seq<char>>::empty());
        r
    }

    /// The team this matcher gives `relative_path`, with the matcher's source.
    pub fn owner_for(&self, relative_path: &str) -> (r: (Option<&TeamName>, &Source))
        ensures
            match r.0 {
                Some(t) => owner_for_spec(self@, relative_path@) == Some(t@),
                None => owner_for_spec(self@, relative_path@) is None,
            },
            r.1@ == matcher_source(self@),
    {
        match self {
            OwnerMatcher::Glob { glob, subtracted_globs, team_name, source } => {
                if glob_match(glob.as_str(), relative_path) && !glob_list_matches(
                    relative_path,
                    subtracted_globs,
                ) {
                    (Some(team_name), source)
                } else {
                    (None, source)
                }
            },
            OwnerMatcher::ExactMatches(path_to_team, source) => {
                let key = normalize_path(relative_path);
                (path_to_team.get(key.as_str()), source)
            },
        }
    }
}

/// A glob matcher gives no team to a path that one of its subtracted globs
/// matches: what a team leaves unowned subtracts from what it owns.
pub proof fn lemma_subtracted_globs_not_owned(m: OwnerMatcherView, path: Seq<char>)
    requires
        m is Glob,
        any_glob_matches(m->subtracted_globs, path),
    ensures
        owner_for_spec(m, path) is None,
{
}

} // verus!
