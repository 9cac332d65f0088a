//! The owners of one path: every team that some matcher gives it, with the
//! sources that gave it; of the directory markers, only the deepest counts.
use vstd::prelude::*;

use crate::sort::{lemma_stable_sorted_map, sort_by, stable_sorted};
use crate::text::{
    lemma_text_lt_total, lemma_text_lt_trans, spec_to_lowercase, str_eq, text_le, text_less,
    text_lt, to_lowercase,
};

use super::mapper::{
    matcher_source, owner_for_spec, source_len, OwnerMatcher, OwnerMatcherView, Source,
    SourceView, TeamName,
};

verus! {

#[derive(Debug)]
pub struct Owner {
    pub sources: Vec<Source>,
    pub team_name: TeamName,
}

pub struct OwnerView {
    pub sources: Seq<SourceView>,
    pub team_name: Seq<char>,
}

impl View for Owner {
    type V = OwnerView;

    open spec fn view(&self) -> OwnerView {
        OwnerView { sources: self.sources@.map_values(|s: Source| s@), team_name: self.team_name@ }
    }
}

impl Owner {
    pub fn duplicate(&self) -> (r: Self)
        ensures
            r@ == self@,
    {
        Owner { sources: copy_sources(&self.sources), team_name: self.team_name.clone() }
    }
}

pub fn copy_sources(v: &Vec<Source>) -> (r: Vec<Source>)
    ensures
        r@.map_values(|s: Source| s@) == v@.map_values(|s: Source| s@),
{
    let mut r: Vec<Source> = Vec::new();
    let mut i: usize = 0;
    while i < v.len()
        invariant
            i <= v.len(),
            r@.map_values(|s: Source| s@) == v@.map_values(|s: Source| s@).take(i as int),
        decreases v.len() - i,
    {
        let ghost before = r@;
        r.push(v[i].duplicate());
        assert(r@.map_values(|s: Source| s@) =~= before.map_values(|s: Source| s@).push(v@[i as int]@));
        assert(v@.map_values(|s: Source| s@).take(i + 1) =~= v@.map_values(|s: Source| s@).take(
            i as int,
        ).push(v@[i as int]@));
        i = i + 1;
    }
    assert(v@.map_values(|s: Source| s@).take(v.len() as int) =~= v@.map_values(|s: Source| s@));
    r
}

/// The deepest directory owner among the matchers: the first of the
/// directory matches with the greatest depth.
pub open spec fn dir_winner(ms: Seq<OwnerMatcherView>, path: Seq<char>) -> Option<(Seq<char>, SourceView)>
    decreases ms.len(),
{
    if ms.len() == 0 {
        None
    } else {
        let w = dir_winner(ms.drop_last(), path);
        let m = ms.last();
        let s = matcher_source(m);
        match owner_for_spec(m, path) {
            Some(t) => if s is Directory && (w is None || source_len(w.unwrap().1) < source_len(
                s,
            )) {
                Some((t, s))
            } else {
                w
            },
            None => w,
        }
    }
}

/// A team and a source that some non-directory matcher gives the path.
pub open spec fn non_dir_contribution(m: OwnerMatcherView, path: Seq<char>) -> Option<(Seq<char>, SourceView)> {
    match owner_for_spec(m, path) {
        Some(t) => if matcher_source(m) is Directory {
            None
        } else {
            Some((t, matcher_source(m)))
        },
        None => None,
    }
}

/// The index of the owner of team `t` in `os`, or -1.
pub open spec fn owner_index(os: Seq<OwnerView>, t: Seq<char>) -> int
    decreases os.len(),
{
    if os.len() == 0 {
        -1
    } else if os.last().team_name == t {
        os.len() - 1
    } else {
        owner_index(os.drop_last(), t)
    }
}

/// `os` with source `s` added to team `t`'s owner, or a new owner for `t`
/// at the end.
pub open spec fn add_contribution(os: Seq<OwnerView>, t: Seq<char>, s: SourceView) -> Seq<OwnerView> {
    let i = owner_index(os, t);
    if i >= 0 {
        os.update(i, OwnerView { sources: os[i].sources.push(s), team_name: t })
    } else {
        os.push(OwnerView { sources: seq![s], team_name: t })
    }
}

/// The owners that a list of (team, source) contributions makes: one per
/// team, in the order the teams first appear, with that team's sources in
/// order.
pub open spec fn group_owners(cs: Seq<(Seq<char>, SourceView)>) -> Seq<OwnerView>
    decreases cs.len(),
{
    if cs.len() == 0 {
        Seq::empty()
    } else {
        add_contribution(group_owners(cs.drop_last()), cs.last().0, cs.last().1)
    }
}

/// Every team that some matcher gives the path, each with its sources: the
/// non-directory sources in matcher order, then the deepest directory
/// source, when that names the team.
pub open spec fn find_spec(ms: Seq<OwnerMatcherView>, path: Seq<char>) -> Seq<OwnerView> {
    let cs = ms.filter_map(|m: OwnerMatcherView| non_dir_contribution(m, path));
    match dir_winner(ms, path) {
        Some(w) => group_owners(cs.push(w)),
        None => group_owners(cs),
    }
}

pub struct FileOwnerFinder<'a> {
    pub owner_matchers: &'a Vec<OwnerMatcher>,
}

/// Adds `source` to the owner of `team`, or a new owner for it.
pub(crate) fn add_source(owners: &mut Vec<Owner>, team: &TeamName, source: &Source)
    ensures
        final(owners)@.map_values(|o: Owner| o@) == add_contribution(
            old(owners)@.map_values(|o: Owner| o@),
            team@,
            source@,
        ),
{
    let ghost os = owners@.map_values(|o: Owner| o@);
    let mut i: usize = owners.len();
    assert(os.take(owners.len() as int) =~= os);
    while i > 0
        invariant
            i <= owners.len(),
            os == owners@.map_values(|o: Owner| o@),
            os == old(owners)@.map_values(|o: Owner| o@),
            owner_index(os, team@) == owner_index(os.take(i as int), team@),
        decreases i,
    {
        assert(os.take(i as int).last() == owners@[i - 1]@);
        assert(os.take(i as int).drop_last() =~= os.take(i - 1));
        if owners[i - 1].team_name == *team {
            assert(os.take(i as int).last().team_name == team@);
            assert(owner_index(os.take(i as int), team@) == i - 1);
            assert(owner_index(os, team@) == i - 1);
            let ghost before = owners@;
            let mut o = owners.remove(i - 1);
            let ghost old_sources = o.sources@;
            let dup = source.duplicate();
            o.sources.push(dup);
            assert(o.sources@.map_values(|s: Source| s@) =~= old_sources.map_values(|s: Source| s@).push(
                source@,
            ));
            assert(o@ == OwnerView { sources: os[i - 1].sources.push(source@), team_name: team@ });
            owners.insert(i - 1, o);
            assert(owners@ =~= before.update(i - 1, o));
            assert(owners@.map_values(|o: Owner| o@) =~= os.update(
                i - 1,
                OwnerView { sources: os[i - 1].sources.push(source@), team_name: team@ },
            ));
            return ;
        }
        i = i - 1;
    }
    assert(os.take(0) =~= Seq::<OwnerView>::empty());
    let mut sources: Vec<Source> = Vec::new();
    sources.push(source.duplicate());
    assert(sources@.map_values(|s: Source| s@) =~= seq![source@]);
    owners.push(Owner { sources, team_name: team.clone() });
    assert(owners@.map_values(|o: Owner| o@) =~= os.push(
        OwnerView { sources: seq![source@], team_name: team@ },
    ));
}

impl<'a> FileOwnerFinder<'a> {
    /// The owners of `relative_path`.
    pub fn find(&self, relative_path: &str) -> (r: Vec<Owner>)
        ensures
            r@.map_values(|o: Owner| o@) == find_spec(
                self.owner_matchers@.map_values(|m: OwnerMatcher| m@),
                relative_path@,
            ),
    {
        let ghost ms = self.owner_matchers@.map_values(|m: OwnerMatcher| m@);
        let ghost f = |m: OwnerMatcherView| non_dir_contribution(m, relative_path@);
        let mut owners: Vec<Owner> = Vec::new();
        let mut directory_overrider = DirectoryOverrider::default();
        let mut i: usize = 0;
        while i < self.owner_matchers.len()
            invariant
                i <= self.owner_matchers.len(),
                ms == self.owner_matchers@.map_values(|m: OwnerMatcher| m@),
                f == (|m: OwnerMatcherView| non_dir_contribution(m, relative_path@)),
                owners@.map_values(|o: Owner| o@) == group_owners(ms.take(i as int).filter_map(f)),
                directory_overrider.winner_view() == dir_winner(ms.take(i as int), relative_path@),
            decreases self.owner_matchers.len() - i,
        {
            let matcher = &self.owner_matchers[i];
            assert(ms[i as int] == matcher@);
            assert(ms.take(i + 1).drop_last() =~= ms.take(i as int));
            assert(ms.take(i + 1).last() == matcher@);
            let (owner, source) = matcher.owner_for(relative_path);
            if let Some(team_name) = owner {
                if source.is_directory() {
                    directory_overrider.process(team_name, source);
                } else {
                    let ghost before = ms.take(i as int).filter_map(f);
                    add_source(&mut owners, team_name, source);
                    assert(ms.take(i + 1).filter_map(f) =~= before.push((team_name@, source@)));
                    assert(ms.take(i + 1).filter_map(f).drop_last() =~= before);
                }
            }
            i = i + 1;
        }
        assert(ms.take(self.owner_matchers.len() as int) =~= ms);
        let ghost cs = ms.filter_map(f);
        if let Some((team_name, source)) = directory_overrider.specific_directory_owner() {
            add_source(&mut owners, team_name, source);
            assert(cs.push((team_name@, source@)).drop_last() =~= cs);
        }
        owners
    }
}

/// Keeps, of the directory owners seen, the one with the deepest directory.
#[derive(Debug)]
pub struct DirectoryOverrider<'a> {
    specific_directory_owner: Option<(&'a TeamName, &'a Source)>,
}

impl<'a> Default for DirectoryOverrider<'a> {
    fn default() -> (r: Self)
        ensures
            r.winner_view() is None,
    {
        DirectoryOverrider { specific_directory_owner: None }
    }
}

impl<'a> DirectoryOverrider<'a> {
    pub closed spec fn winner_view(&self) -> Option<(Seq<char>, SourceView)> {
        match self.specific_directory_owner {
            Some((t, s)) => Some((t@, s@)),
            None => None,
        }
    }

    /// Takes `team_name` as the owner when no owner was seen yet or its
    /// directory is deeper than the current owner's.
    pub fn process(&mut self, team_name: &'a TeamName, source: &'a Source)
        ensures
            final(self).winner_view() == if old(self).winner_view() is None || source_len(
                old(self).winner_view().unwrap().1,
            ) < source_len(source@) {
                Some((team_name@, source@))
            } else {
                old(self).winner_view()
            },
    {
        let take = match self.specific_directory_owner {
            None => true,
            Some((_, current_source)) => current_source.len() < source.len(),
        };
        if take {
            self.specific_directory_owner = Some((team_name, source));
        }
    }

    /// The owner kept so far.
    pub fn specific_directory_owner(&self) -> (r: Option<(&TeamName, &Source)>)
        ensures
            match r {
                Some((t, s)) => self.winner_view() == Some((t@, s@)),
                None => self.winner_view() is None,
            },
    {
        self.specific_directory_owner
    }
}

/// The owners, each with the lower-case name of its team as its key.
pub open spec fn lower_keyed(os: Seq<OwnerView>) -> Seq<(Seq<char>, OwnerView)> {
    os.map_values(|o: OwnerView| (spec_to_lowercase(o.team_name), o))
}

/// The owners in the order of their keys; owners with equal keys keep their
/// order.
pub open spec fn sorted_by_keys(keyed: Seq<(Seq<char>, OwnerView)>) -> Seq<OwnerView> {
    stable_sorted(
        keyed,
        |a: (Seq<char>, OwnerView), b: (Seq<char>, OwnerView)| text_le(a.0, b.0),
    ).map_values(|k: (Seq<char>, OwnerView)| k.1)
}

/// The owners in the order of their teams' names in lower case.
pub open spec fn owners_by_lower_name(os: Seq<OwnerView>) -> Seq<OwnerView> {
    sorted_by_keys(lower_keyed(os))
}

/// Orders owners by the keys given for them, position by position; owners
/// with equal keys keep their order.
pub fn sort_owners_by_keys(owners: &Vec<Owner>, keys: &Vec<String>) -> (r: Vec<Owner>)
    requires
        keys.len() == owners.len(),
    ensures
        r@.map_values(|o: Owner| o@) == sorted_by_keys(
            Seq::new(owners.len() as nat, |i: int| (keys@[i]@, owners@[i]@)),
        ),
{
    let ghost zipped = Seq::new(owners.len() as nat, |i: int| (keys@[i]@, owners@[i]@));
    let ghost f = |p: (String, Owner)| (p.0@, p.1@);
    let mut pairs: Vec<(String, Owner)> = Vec::new();
    let mut i: usize = 0;
    while i < owners.len()
        invariant
            i <= owners.len(),
            keys.len() == owners.len(),
            zipped == Seq::new(owners.len() as nat, |i: int| (keys@[i]@, owners@[i]@)),
            f == (|p: (String, Owner)| (p.0@, p.1@)),
            pairs@.map_values(f) == zipped.take(i as int),
        decreases owners.len() - i,
    {
        let ghost before = pairs@;
        pairs.push((keys[i].clone(), owners[i].duplicate()));
        assert(pairs@.map_values(f) =~= before.map_values(f).push(zipped[i as int]));
        assert(zipped.take(i + 1) =~= zipped.take(i as int).push(zipped[i as int]));
        i = i + 1;
    }
    assert(zipped.take(owners.len() as int) =~= zipped);
    let ghost pv = pairs@;
    let ghost sle = |a: (String, Owner), b: (String, Owner)| text_le(a.0@, b.0@);
    let ghost vle = |a: (Seq<char>, OwnerView), b: (Seq<char>, OwnerView)| text_le(a.0, b.0);
    proof {
        assert forall|a: (String, Owner), b: (String, Owner)| #[trigger] sle(a, b) || sle(b, a) by {
            lemma_text_lt_total(a.0@, b.0@);
        }
        assert forall|a: (String, Owner), b: (String, Owner), c: (String, Owner)| #[trigger] sle(
            a,
            b,
        ) && #[trigger] sle(b, c) implies sle(a, c) by {
            if text_lt(a.0@, b.0@) && text_lt(b.0@, c.0@) {
                lemma_text_lt_trans(a.0@, b.0@, c.0@);
            }
        }
        assert forall|a: (String, Owner), b: (String, Owner)| #[trigger] sle(a, b) == vle(
            f(a),
            f(b),
        ) by {}
        lemma_stable_sorted_map(pv, sle, f, vle);
    }
    let key_le = |a: &(String, Owner), b: &(String, Owner)| -> (r: bool)
        ensures
            r == text_le(a.0@, b.0@),
        { text_less(a.0.as_str(), b.0.as_str()) || str_eq(a.0.as_str(), b.0.as_str()) };
    let sorted = sort_by(pairs, key_le, Ghost(sle));
    let ghost sv = sorted@.map_values(f);
    assert(sv == stable_sorted(zipped, vle));
    let mut out: Vec<Owner> = Vec::new();
    let mut k: usize = 0;
    while k < sorted.len()
        invariant
            k <= sorted.len(),
            sv == sorted@.map_values(f),
            f == (|p: (String, Owner)| (p.0@, p.1@)),
            out@.map_values(|o: Owner| o@) == sv.take(k as int).map_values(
                |q: (Seq<char>, OwnerView)| q.1,
            ),
        decreases sorted.len() - k,
    {
        let ghost before = out@;
        out.push(sorted[k].1.duplicate());
        assert(sv[k as int] == f(sorted@[k as int]));
        assert(out@.map_values(|o: Owner| o@) =~= before.map_values(|o: Owner| o@).push(
            sv[k as int].1,
        ));
        assert(sv.take(k + 1) =~= sv.take(k as int).push(sv[k as int]));
        k = k + 1;
    }
    assert(sv.take(sorted.len() as int) =~= sv);
    out
}

/// The owners in the order of their teams' names in lower case.
pub fn order_owners_by_lower_name(owners: &Vec<Owner>) -> (r: Vec<Owner>)
    ensures
        r@.map_values(|o: Owner| o@) == owners_by_lower_name(owners@.map_values(|o: Owner| o@)),
{
    let mut keys: Vec<String> = Vec::new();
    let mut i: usize = 0;
    while i < owners.len()
        invariant
            i <= owners.len(),
            keys.len() == i,
            forall|j: int| 0 <= j < i ==> #[trigger] keys@[j]@ == spec_to_lowercase(
                owners@[j].team_name@,
            ),
        decreases owners.len() - i,
    {
        keys.push(to_lowercase(owners[i].team_name.as_str()));
        i = i + 1;
    }
    let r = sort_owners_by_keys(owners, &keys);
    assert(Seq::new(owners.len() as nat, |i: int| (keys@[i]@, owners@[i]@)) =~= lower_keyed(
        owners@.map_values(|o: Owner| o@),
    ));
    r
}

/// Owners of distinct teams, each with at least one source.
pub open spec fn owners_well_formed(os: Seq<OwnerView>) -> bool {
    &&& forall|i: int, j: int|
        0 <= i < j < os.len() ==> (#[trigger] os[i]).team_name != (#[trigger] os[j]).team_name
    &&& forall|i: int| 0 <= i < os.len() ==> (#[trigger] os[i]).sources.len() > 0
}

proof fn lemma_owner_index(os: Seq<OwnerView>, t: Seq<char>)
    ensures
        owner_index(os, t) == -1 ==> forall|i: int| 0 <= i < os.len() ==> (#[trigger] os[i]).team_name != t,
        owner_index(os, t) >= 0 ==> owner_index(os, t) < os.len() && os[owner_index(os, t)].team_name == t,
        owner_index(os, t) >= -1,
    decreases os.len(),
{
    if os.len() > 0 {
        lemma_owner_index(os.drop_last(), t);
        if os.last().team_name != t {
            assert forall|i: int| 0 <= i < os.len() - 1 implies os[i] == os.drop_last()[i] by {}
        }
    }
}

proof fn lemma_group_owners_well_formed(cs: Seq<(Seq<char>, SourceView)>)
    ensures
        owners_well_formed(group_owners(cs)),
    decreases cs.len(),
{
    if cs.len() > 0 {
        let os = group_owners(cs.drop_last());
        lemma_group_owners_well_formed(cs.drop_last());
        let t = cs.last().0;
        lemma_owner_index(os, t);
        let r = add_contribution(os, t, cs.last().1);
        assert(r == group_owners(cs));
        if owner_index(os, t) >= 0 {
            let k = owner_index(os, t);
            assert forall|i: int, j: int| 0 <= i < j < r.len() implies (#[trigger] r[i]).team_name
                != (#[trigger] r[j]).team_name by {
                assert(os[i].team_name != os[j].team_name);
            }
            assert forall|i: int| 0 <= i < r.len() implies (#[trigger] r[i]).sources.len() > 0 by {
                if i != k {
                    assert(r[i] == os[i]);
                }
            }
        } else {
            assert forall|i: int, j: int| 0 <= i < j < r.len() implies (#[trigger] r[i]).team_name
                != (#[trigger] r[j]).team_name by {
                if j < os.len() {
                    assert(os[i].team_name != os[j].team_name);
                } else {
                    assert(os[i].team_name != t);
                }
            }
            assert forall|i: int| 0 <= i < r.len() implies (#[trigger] r[i]).sources.len() > 0 by {
                if i < os.len() {
                    assert(r[i] == os[i]);
                }
            }
        }
    }
}

/// The owners that `find` gives a path name each team once, and each has
/// at least one source.
pub proof fn lemma_find_owners_well_formed(ms: Seq<OwnerMatcherView>, path: Seq<char>)
    ensures
        owners_well_formed(find_spec(ms, path)),
{
    let cs = ms.filter_map(|m: OwnerMatcherView| non_dir_contribution(m, path));
    match dir_winner(ms, path) {
        Some(w) => lemma_group_owners_well_formed(cs.push(w)),
        None => lemma_group_owners_well_formed(cs),
    }
}

/// Whether matcher `m` is a directory marker that gives `path` a team.
pub open spec fn directory_match(m: OwnerMatcherView, path: Seq<char>) -> bool {
    matcher_source(m) is Directory && owner_for_spec(m, path) is Some
}

/// Of the directory markers that give a path a team, the deepest wins, the
/// first of equally deep ones: `find` keeps its team and source and no
/// other directory's.
pub proof fn lemma_deepest_directory_wins(ms: Seq<OwnerMatcherView>, path: Seq<char>)
    ensures
        dir_winner(ms, path) is None <==> forall|j: int|
            0 <= j < ms.len() ==> !directory_match(#[trigger] ms[j], path),
        dir_winner(ms, path) matches Some(w) ==> exists|i: int|
            0 <= i < ms.len() && directory_match(#[trigger] ms[i], path) && owner_for_spec(ms[i], path)
                == Some(w.0) && matcher_source(ms[i]) == w.1 && (forall|j: int|
                0 <= j < i && directory_match(#[trigger] ms[j], path) ==> source_len(
                    matcher_source(ms[j]),
                ) < source_len(w.1)) && (forall|j: int|
                0 <= j < ms.len() && directory_match(#[trigger] ms[j], path) ==> source_len(
                    matcher_source(ms[j]),
                ) <= source_len(w.1)),
    decreases ms.len(),
{
    if ms.len() > 0 {
        let init = ms.drop_last();
        lemma_deepest_directory_wins(init, path);
        let k = ms.len() - 1;
        assert(ms[k] == ms.last());
        assert forall|j: int| 0 <= j < k implies ms[j] == init[j] by {}
        let w0 = dir_winner(init, path);
        if directory_match(ms[k], path) && (w0 is None || source_len(w0.unwrap().1) < source_len(
            matcher_source(ms[k]),
        )) {
            assert(dir_winner(ms, path) == Some((owner_for_spec(ms[k], path).unwrap(), matcher_source(ms[k]))));
            if w0 is Some {
                let i0 = choose|i: int|
                    0 <= i < init.len() && directory_match(#[trigger] init[i], path) && owner_for_spec(
                        init[i],
                        path,
                    ) == Some(w0.unwrap().0) && matcher_source(init[i]) == w0.unwrap().1 && (forall|j: int|
                        0 <= j < i && directory_match(#[trigger] init[j], path) ==> source_len(
                            matcher_source(init[j]),
                        ) < source_len(w0.unwrap().1)) && (forall|j: int|
                        0 <= j < init.len() && directory_match(#[trigger] init[j], path) ==> source_len(
                            matcher_source(init[j]),
                        ) <= source_len(w0.unwrap().1));
                assert forall|j: int| 0 <= j < k && directory_match(#[trigger] ms[j], path) implies source_len(
                    matcher_source(ms[j]),
                ) < source_len(matcher_source(ms[k])) by {
                    assert(directory_match(init[j], path));
                }
            } else {
                assert forall|j: int| 0 <= j < k implies !directory_match(#[trigger] ms[j], path) by {
                    assert(!directory_match(init[j], path));
                }
            }
        } else {
            assert(dir_winner(ms, path) == w0) by {
                let m = ms.last();
                if owner_for_spec(m, path) is Some && matcher_source(m) is Directory {
                } 
            }
            if w0 is Some {
                let i0 = choose|i: int|
                    0 <= i < init.len() && directory_match(#[trigger] init[i], path) && owner_for_spec(
                        init[i],
                        path,
                    ) == Some(w0.unwrap().0) && matcher_source(init[i]) == w0.unwrap().1 && (forall|j: int|
                        0 <= j < i && directory_match(#[trigger] init[j], path) ==> source_len(
                            matcher_source(init[j]),
                        ) < source_len(w0.unwrap().1)) && (forall|j: int|
                        0 <= j < init.len() && directory_match(#[trigger] init[j], path) ==> source_len(
                            matcher_source(init[j]),
                        ) <= source_len(w0.unwrap().1));
                assert(ms[i0] == init[i0]);
                assert forall|j: int| 0 <= j < i0 && directory_match(#[trigger] ms[j], path) implies source_len(
                    matcher_source(ms[j]),
                ) < source_len(w0.unwrap().1) by {
                    assert(directory_match(init[j], path));
                }
                assert forall|j: int| 0 <= j < ms.len() && directory_match(#[trigger] ms[j], path) implies source_len(
                    matcher_source(ms[j]),
                ) <= source_len(w0.unwrap().1) by {
                    if j < k {
                        assert(directory_match(init[j], path));
                    }
                }
            } else {
                assert forall|j: int| 0 <= j < ms.len() implies !directory_match(#[trigger] ms[j], path) by {
                    if j < k {
                        assert(!directory_match(init[j], path));
                    }
                }
            }
        }
    }
}

/// The owners of `group_owners(cs)` hold exactly the contributions of `cs`:
/// each source of an owner was contributed for its team, and each
/// contribution is a source of its team's owner.
pub proof fn lemma_group_owners_sources(cs: Seq<(Seq<char>, SourceView)>)
    ensures
        forall|i: int, j: int|
            0 <= i < group_owners(cs).len() && 0 <= j < group_owners(cs)[i].sources.len() ==> cs.contains(
                (group_owners(cs)[i].team_name, #[trigger] group_owners(cs)[i].sources[j]),
            ),
        forall|k: int|
            0 <= k < cs.len() ==> exists|i: int, j: int|
                0 <= i < group_owners(cs).len() && 0 <= j < group_owners(cs)[i].sources.len()
                    && group_owners(cs)[i].team_name == (#[trigger] cs[k]).0
                    && group_owners(cs)[i].sources[j] == cs[k].1,
    decreases cs.len(),
{
    if cs.len() > 0 {
        let init = cs.drop_last();
        let os = group_owners(init);
        lemma_group_owners_sources(init);
        let t = cs.last().0;
        let src = cs.last().1;
        lemma_owner_index(os, t);
        let r = add_contribution(os, t, src);
        assert(r == group_owners(cs));
        let n = cs.len() - 1;
        assert(cs[n] == cs.last());
        assert forall|k: int| 0 <= k < n implies #[trigger] cs[k] == init[k] by {}
        assert forall|i: int, j: int|
            0 <= i < r.len() && 0 <= j < r[i].sources.len() implies cs.contains(
            (r[i].team_name, #[trigger] r[i].sources[j]),
        ) by {
            let idx = owner_index(os, t);
            if i < os.len() && (idx < 0 || i != idx || j < os[i].sources.len()) {
                assert(r[i].team_name == os[i].team_name);
                assert(r[i].sources[j] == os[i].sources[j]);
                let k = choose|k: int| 0 <= k < init.len() && init[k] == (os[i].team_name, os[i].sources[j]);
                assert(cs[k] == init[k]);
            } else {
                assert(r[i].team_name == t && r[i].sources[j] == src);
                assert(cs[n] == (t, src));
            }
        }
        assert forall|k: int| 0 <= k < cs.len() implies exists|i: int, j: int|
            0 <= i < r.len() && 0 <= j < r[i].sources.len() && r[i].team_name == (#[trigger] cs[k]).0
                && r[i].sources[j] == cs[k].1 by {
            let idx = owner_index(os, t);
            if k < n {
                assert(cs[k] == init[k]);
                let (i, j) = choose|i: int, j: int|
                    0 <= i < os.len() && 0 <= j < os[i].sources.len() && os[i].team_name == (
                    #[trigger] init[k]).0 && os[i].sources[j] == init[k].1;
                assert(r[i].team_name == os[i].team_name);
                assert(r[i].sources[j] == os[i].sources[j]);
            } else if idx >= 0 {
                assert(r[idx].sources[os[idx].sources.len() as int] == src);
            } else {
                assert(r[os.len() as int].sources[0] == src);
            }
        }
    }
}

/// The only directory source among the owners that `find` gives a path is
/// that of the deepest matching directory marker, on its team.
pub proof fn lemma_find_keeps_only_deepest_directory(ms: Seq<OwnerMatcherView>, path: Seq<char>)
    ensures
        forall|i: int, j: int|
            0 <= i < find_spec(ms, path).len() && 0 <= j < find_spec(ms, path)[i].sources.len()
                && (#[trigger] find_spec(ms, path)[i].sources[j]) is Directory ==> dir_winner(ms, path)
                == Some((find_spec(ms, path)[i].team_name, find_spec(ms, path)[i].sources[j])),
        dir_winner(ms, path) matches Some(w) ==> exists|i: int, j: int|
            0 <= i < find_spec(ms, path).len() && 0 <= j < find_spec(ms, path)[i].sources.len()
                && find_spec(ms, path)[i].team_name == w.0 && #[trigger] find_spec(ms, path)[i].sources[j]
                == w.1,
{
    let f = |m: OwnerMatcherView| non_dir_contribution(m, path);
    let cs = ms.filter_map(f);
    let all = match dir_winner(ms, path) {
        Some(w) => cs.push(w),
        None => cs,
    };
    assert(find_spec(ms, path) == group_owners(all));
    lemma_group_owners_sources(all);
    let os = group_owners(all);
    assert forall|i: int, j: int|
        0 <= i < os.len() && 0 <= j < os[i].sources.len() && (#[trigger] os[i].sources[j]) is Directory
        implies dir_winner(ms, path) == Some((os[i].team_name, os[i].sources[j])) by {
        let c = (os[i].team_name, os[i].sources[j]);
        assert(all.contains(c));
        let k = choose|k: int| 0 <= k < all.len() && all[k] == c;
        if k < cs.len() {
            assert(all[k] == cs[k]);
            assert(cs.contains(c));
            ms.lemma_filter_map_contains(f, c);
            let m = choose|m: OwnerMatcherView| #[trigger] ms.contains(m) && f(m) == Some(c);
            assert(non_dir_contribution(m, path) == Some(c));
        }
    }
    if let Some(w) = dir_winner(ms, path) {
        assert(all[cs.len() as int] == w);
        let k = cs.len() as int;
        let (i, j) = choose|i: int, j: int|
            0 <= i < os.len() && 0 <= j < os[i].sources.len() && os[i].team_name == (#[trigger] all[k]).0
                && os[i].sources[j] == all[k].1;
        assert(os[i].sources[j] == w.1);
    }
}

/// Ordering owners by their teams' names in lower case keeps every owner
/// and adds none: the result is a rearrangement of the owners given.
pub proof fn lemma_owners_by_lower_name_permutes(os: Seq<OwnerView>)
    ensures
        owners_by_lower_name(os).len() == os.len(),
        forall|j: int| 0 <= j < os.len() ==> owners_by_lower_name(os).contains(#[trigger] os[j]),
        forall|i: int|
            0 <= i < owners_by_lower_name(os).len() ==> os.contains(#[trigger] owners_by_lower_name(os)[i]),
{
    let keyed = lower_keyed(os);
    let vle = |a: (Seq<char>, OwnerView), b: (Seq<char>, OwnerView)| text_le(a.0, b.0);
    assert forall|a: (Seq<char>, OwnerView), b: (Seq<char>, OwnerView)| #[trigger] vle(a, b) || vle(b, a) by {
        lemma_text_lt_total(a.0, b.0);
    }
    assert forall|a: (Seq<char>, OwnerView), b: (Seq<char>, OwnerView), c: (Seq<char>, OwnerView)| #[trigger] vle(
        a,
        b,
    ) && #[trigger] vle(b, c) implies vle(a, c) by {
        if text_lt(a.0, b.0) && text_lt(b.0, c.0) {
            lemma_text_lt_trans(a.0, b.0, c.0);
        }
    }
    crate::sort::lemma_stable_sorted_is_sorted(keyed, vle);
    let st = stable_sorted(keyed, vle);
    let r = owners_by_lower_name(os);
    assert(r == st.map_values(|k: (Seq<char>, OwnerView)| k.1));
    st.to_multiset_ensures();
    keyed.to_multiset_ensures();
    assert(st.len() == keyed.len());
    assert forall|j: int| 0 <= j < os.len() implies r.contains(#[trigger] os[j]) by {
        assert(keyed[j] == (spec_to_lowercase(os[j].team_name), os[j]));
        assert(keyed.contains(keyed[j]));
        assert(st.to_multiset().count(keyed[j]) > 0);
        let m = choose|m: int| 0 <= m < st.len() && st[m] == keyed[j];
        assert(r[m] == os[j]);
    }
    assert forall|i: int| 0 <= i < r.len() implies os.contains(#[trigger] r[i]) by {
        assert(st.contains(st[i]));
        assert(keyed.to_multiset().count(st[i]) > 0);
        let m = choose|m: int| 0 <= m < keyed.len() && keyed[m] == st[i];
        assert(os[m] == r[i]);
    }
}

} // verus!
