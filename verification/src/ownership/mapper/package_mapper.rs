//! Ownership of packages, declared by the owner in a package's `package.yml`
//! (Ruby) or `package.json` (JavaScript).
use vstd::prelude::*;

use super::directory_mapper::{all_below, glob_all_below};
use super::{Mapper, OwnerMatcher, OwnerMatcherView, Source, SourceView};
use crate::ownership::{Entry, EntryView};
use crate::path::{
    components, components_lt, lemma_components_lt_irreflexive, lemma_components_lt_total,
    lemma_components_lt_trans, parent_spec, path_less, path_starts_with, path_starts_with_spec,
};
use crate::project::{
    teams_by_any_name_spec, Package, PackageType, PackageView, Project, ProjectView, TeamView,
};
use crate::sort::{sort_by, stable_sorted, total_preorder};
use crate::text::to_owned_string;

verus! {

/// A package's directory, by its components; `None` sorts first.
pub open spec fn root_key(pk: PackageView) -> Option<Seq<Seq<char>>> {
    match parent_spec(pk.path) {
        Some(r) => Some(components(r)),
        None => None,
    }
}

pub open spec fn key_lt(a: Option<Seq<Seq<char>>>, b: Option<Seq<Seq<char>>>) -> bool {
    match (a, b) {
        (None, Some(_)) => true,
        (Some(x), Some(y)) => components_lt(x, y),
        _ => false,
    }
}

/// The order of packages by their directories.
pub open spec fn package_le(a: Package, b: Package) -> bool {
    !key_lt(root_key(b@), root_key(a@))
}

proof fn lemma_key_lt_asym(a: Option<Seq<Seq<char>>>, b: Option<Seq<Seq<char>>>)
    ensures
        !(key_lt(a, b) && key_lt(b, a)),
{
    if let (Some(x), Some(y)) = (a, b) {
        if components_lt(x, y) && components_lt(y, x) {
            lemma_components_lt_trans(x, y, x);
            lemma_components_lt_irreflexive(x);
        }
    }
}

proof fn lemma_key_not_lt_trans(
    a: Option<Seq<Seq<char>>>,
    b: Option<Seq<Seq<char>>>,
    c: Option<Seq<Seq<char>>>,
)
    requires
        !key_lt(b, a),
        !key_lt(c, b),
    ensures
        !key_lt(c, a),
{
    if let (Some(x), Some(y), Some(z)) = (a, b, c) {
        lemma_components_lt_total(x, y);
        lemma_components_lt_total(y, z);
        if components_lt(z, x) {
            if components_lt(x, y) {
                lemma_components_lt_trans(z, x, y);
                if components_lt(y, z) {
                    lemma_components_lt_trans(z, y, z);
                    lemma_components_lt_irreflexive(z);
                }
            }
            if x == y && components_lt(y, z) {
                lemma_components_lt_trans(z, x, z);
                lemma_components_lt_irreflexive(z);
            }
        }
    }
}

pub proof fn lemma_package_le_total_preorder()
    ensures
        total_preorder(|a: Package, b: Package| package_le(a, b)),
{
    let le = |a: Package, b: Package| package_le(a, b);
    assert forall|a: Package, b: Package| #[trigger] le(a, b) || le(b, a) by {
        lemma_key_lt_asym(root_key(a@), root_key(b@));
    }
    assert forall|a: Package, b: Package, c: Package| #[trigger] le(a, b) && #[trigger] le(
        b,
        c,
    ) implies le(a, c) by {
        lemma_key_not_lt_trans(root_key(a@), root_key(b@), root_key(c@));
    }
}

/// Of packages sorted by directory, those not nested in the last package kept
/// before them.
pub open spec fn keep_top_level(sorted: Seq<PackageView>) -> Seq<PackageView>
    decreases sorted.len(),
{
    if sorted.len() == 0 {
        sorted
    } else {
        let kept = keep_top_level(sorted.drop_last());
        let p = sorted.last();
        if kept.len() == 0 {
            kept.push(p)
        } else {
            match (parent_spec(p.path), parent_spec(kept.last().path)) {
                (Some(current), Some(last)) => if !path_starts_with_spec(current, last) {
                    kept.push(p)
                } else {
                    kept
                },
                _ => kept,
            }
        }
    }
}

/// The packages, sorted by directory, with the nested ones left out.
pub open spec fn remove_nested_spec(packages: Seq<Package>) -> Seq<PackageView> {
    keep_top_level(
        stable_sorted(packages, |a: Package, b: Package| package_le(a, b)).map_values(
            |p: Package| p@,
        ),
    )
}

/// Whether `a`'s directory sorts strictly before `b`'s.
fn root_less(a: &Package, b: &Package) -> (r: bool)
    ensures
        r == key_lt(root_key(a@), root_key(b@)),
{
    match (a.package_root(), b.package_root()) {
        (None, Some(_)) => true,
        (Some(x), Some(y)) => path_less(x.as_str(), y.as_str()),
        _ => false,
    }
}

/// Nested packages would otherwise give their files two owners; the
/// outermost package stands for those nested in it.
pub fn remove_nested_packages(packages: &Vec<Package>) -> (r: Vec<Package>)
    ensures
        r@.map_values(|p: Package| p@) == remove_nested_spec(packages@),
{
    let mut copies: Vec<Package> = Vec::new();
    let mut i: usize = 0;
    while i < packages.len()
        invariant
            i <= packages.len(),
            copies@ == packages@.take(i as int),
        decreases packages.len() - i,
    {
        copies.push(packages[i].duplicate());
        assert(packages@.take(i + 1) =~= packages@.take(i as int).push(packages@[i as int]));
        i = i + 1;
    }
    assert(packages@.take(packages.len() as int) =~= packages@);
    let ghost le = |a: Package, b: Package| package_le(a, b);
    proof {
        lemma_package_le_total_preorder();
    }
    let not_after = |a: &Package, b: &Package| -> (r: bool)
        ensures
            r == package_le(*a, *b),
        {
            let after = root_less(b, a);
            !after
        };
    let sorted = sort_by(copies, not_after, Ghost(le));
    let ghost sv = sorted@.map_values(|p: Package| p@);
    let mut top_level: Vec<Package> = Vec::new();
    let mut k: usize = 0;
    while k < sorted.len()
        invariant
            k <= sorted.len(),
            sv == sorted@.map_values(|p: Package| p@),
            top_level@.map_values(|p: Package| p@) == keep_top_level(sv.take(k as int)),
        decreases sorted.len() - k,
    {
        let package = &sorted[k];
        let ghost kept = top_level@.map_values(|p: Package| p@);
        assert(sv.take(k + 1).drop_last() =~= sv.take(k as int));
        assert(sv.take(k + 1).last() == package@);
        let n = top_level.len();
        let keep = if n == 0 {
            true
        } else {
            assert(kept.last() == top_level@[n - 1]@);
            match (package.package_root(), top_level[n - 1].package_root()) {
                (Some(current), Some(last)) => !path_starts_with(current.as_str(), last.as_str()),
                _ => false,
            }
        };
        if keep {
            let ghost before = top_level@;
            top_level.push(package.duplicate());
            assert(top_level@.map_values(|p: Package| p@) =~= before.map_values(|p: Package| p@).push(
                package@,
            ));
        }
        k = k + 1;
    }
    assert(sv.take(sorted.len() as int) =~= sv);
    top_level
}

pub open spec fn package_entry(
    teams: Map<Seq<char>, TeamView>,
    package_type: PackageType,
    pk: PackageView,
) -> Option<EntryView> {
    if pk.package_type == package_type && parent_spec(pk.path) is Some && teams.contains_key(
        pk.owner,
    ) {
        let t = teams[pk.owner];
        Some(
            EntryView {
                path: all_below(parent_spec(pk.path).unwrap()),
                github_team: t.github_team,
                team_name: t.name,
                disabled: t.avoid_ownership,
            },
        )
    } else {
        None
    }
}

/// One line for each package of the type whose owner is a known team (by
/// name or by GitHub team).
pub open spec fn package_entries_spec(p: ProjectView, package_type: PackageType) -> Seq<EntryView> {
    p.packages.filter_map(
        |pk: PackageView| package_entry(teams_by_any_name_spec(p.teams), package_type, pk),
    )
}

pub open spec fn package_matcher(
    teams: Map<Seq<char>, TeamView>,
    pk: PackageView,
) -> Option<OwnerMatcherView> {
    if parent_spec(pk.path) is Some && teams.contains_key(pk.owner) {
        let glob = all_below(parent_spec(pk.path).unwrap());
        Some(
            OwnerMatcherView::Glob {
                glob: glob,
                subtracted_globs: Seq::empty(),
                team_name: teams[pk.owner].name,
                source: SourceView::Package(pk.path, glob),
            },
        )
    } else {
        None
    }
}

/// One glob matcher for each outermost package of the type whose owner is a
/// known team.
pub open spec fn package_matchers_spec(p: ProjectView, packages: Seq<Package>, package_type: PackageType) -> Seq<OwnerMatcherView> {
    remove_nested_spec(packages.filter(|pk: Package| pk.package_type == package_type)).filter_map(
        |pk: PackageView| package_matcher(teams_by_any_name_spec(p.teams), pk),
    )
}

pub struct PackageMapper<'a> {
    project: &'a Project,
}

impl<'a> PackageMapper<'a> {
    pub closed spec fn project_view(&self) -> ProjectView {
        self.project@
    }

    pub closed spec fn packages(&self) -> Seq<Package> {
        self.project.packages@
    }

    pub fn build(project: &'a Project) -> (r: Self)
        ensures
            r.project_view() == project@,
            r.packages() == project.packages@,
    {
        PackageMapper { project }
    }

    pub fn entries(&self, package_type: &PackageType) -> (r: Vec<Entry>)
        ensures
            r@.map_values(|e: Entry| e@) == package_entries_spec(self.project_view(), *package_type),
    {
        let ghost p = self.project@;
        let ghost ps = p.packages;
        let ghost f = |pk: PackageView| package_entry(teams_by_any_name_spec(p.teams), *package_type, pk);
        let team_by_name = self.project.teams_by_any_name();
        let packages = &self.project.packages;
        let mut entries: Vec<Entry> = Vec::new();
        let mut i: usize = 0;
        while i < packages.len()
            invariant
                i <= packages.len(),
                p == self.project@,
                ps == p.packages,
                packages@.map_values(|x: Package| x@) == ps,
                f == (|pk: PackageView| package_entry(teams_by_any_name_spec(p.teams), *package_type, pk)),
                team_by_name@ == teams_by_any_name_spec(p.teams),
                entries@.map_values(|e: Entry| e@) == ps.take(i as int).filter_map(f),
            decreases packages.len() - i,
        {
            let package = &packages[i];
            assert(ps[i as int] == package@);
            assert(ps.take(i + 1).drop_last() =~= ps.take(i as int));
            assert(ps.take(i + 1).last() == package@);
            if package.package_type == *package_type {
                if let Some(root) = package.package_root() {
                    if let Some(team) = team_by_name.get(package.owner.as_str()) {
                        let e = Entry {
                            path: glob_all_below(root.as_str()),
                            github_team: team.github_team.clone(),
                            team_name: team.name.clone(),
                            disabled: team.avoid_ownership,
                        };
                        let ghost before = entries@;
                        entries.push(e);
                        assert(entries@.map_values(|e: Entry| e@) =~= before.map_values(
                            |e: Entry| e@,
                        ).push(f(package@).unwrap()));
                    }
                }
            }
            i = i + 1;
        }
        assert(ps.take(packages.len() as int) =~= ps);
        entries
    }

    pub fn owner_matchers(&self, package_type: &PackageType) -> (r: Vec<OwnerMatcher>)
        ensures
            r@.map_values(|m: OwnerMatcher| m@) == package_matchers_spec(
                self.project_view(),
                self.packages(),
                *package_type,
            ),
    {
        let ghost p = self.project@;
        let ghost all = self.project.packages@;
        let ghost pred = |pk: Package| pk.package_type == *package_type;
        let team_by_name = self.project.teams_by_any_name();
        let mut of_type: Vec<Package> = Vec::new();
        let mut i: usize = 0;
        while i < self.project.packages.len()
            invariant
                i <= self.project.packages.len(),
                all == self.project.packages@,
                pred == (|pk: Package| pk.package_type == *package_type),
                of_type@ == all.take(i as int).filter(pred),
            decreases self.project.packages.len() - i,
        {
            let package = &self.project.packages[i];
            proof {
                reveal(Seq::filter);
                assert(all.take(i + 1).drop_last() =~= all.take(i as int));
                assert(all.take(i + 1).last() == *package);
            }
            if package.package_type == *package_type {
                of_type.push(package.duplicate());
            }
            i = i + 1;
        }
        assert(all.take(self.project.packages.len() as int) =~= all);
        let tops = remove_nested_packages(&of_type);
        let ghost tv = tops@.map_values(|x: Package| x@);
        let ghost f = |pk: PackageView| package_matcher(teams_by_any_name_spec(p.teams), pk);
        let mut matchers: Vec<OwnerMatcher> = Vec::new();
        let mut j: usize = 0;
        while j < tops.len()
            invariant
                j <= tops.len(),
                tv == tops@.map_values(|x: Package| x@),
                f == (|pk: PackageView| package_matcher(teams_by_any_name_spec(p.teams), pk)),
                team_by_name@ == teams_by_any_name_spec(p.teams),
                matchers@.map_values(|m: OwnerMatcher| m@) == tv.take(j as int).filter_map(f),
            decreases tops.len() - j,
        {
            let package = &tops[j];
            assert(tv[j as int] == package@);
            assert(tv.take(j + 1).drop_last() =~= tv.take(j as int));
            assert(tv.take(j + 1).last() == package@);
            if let Some(root) = package.package_root() {
                if let Some(team) = team_by_name.get(package.owner.as_str()) {
                    let glob = glob_all_below(root.as_str());
                    let m = OwnerMatcher::new_glob(
                        glob_all_below(root.as_str()),
                        team.name.clone(),
                        Source::Package(package.path.clone(), glob),
                    );
                    let ghost before = matchers@;
                    matchers.push(m);
                    assert(matchers@.map_values(|m: OwnerMatcher| m@) =~= before.map_values(
                        |m: OwnerMatcher| m@,
                    ).push(f(package@).unwrap()));
                }
            }
            j = j + 1;
        }
        assert(tv.take(tops.len() as int) =~= tv);
        matchers
    }
}

pub struct RubyPackageMapper<'a> {
    project: &'a Project,
}

impl<'a> RubyPackageMapper<'a> {
    pub closed spec fn project_view(&self) -> ProjectView {
        self.project@
    }

    pub closed spec fn packages(&self) -> Seq<Package> {
        self.project.packages@
    }

    pub fn build(project: &'a Project) -> (r: Self)
        ensures
            r.project_view() == project@,
            r.packages() == project.packages@,
    {
        RubyPackageMapper { project }
    }
}

impl<'a> Mapper for RubyPackageMapper<'a> {
    fn name(&self) -> (r: String)
        ensures
            r@ == "Owner metadata key in package.yml"@,
    {
        to_owned_string("Owner metadata key in package.yml")
    }

    fn entries(&self) -> (r: Vec<Entry>)
        ensures
            r@.map_values(|e: Entry| e@) == package_entries_spec(
                self.project_view(),
                PackageType::Ruby,
            ),
    {
        PackageMapper::build(self.project).entries(&PackageType::Ruby)
    }

    fn owner_matchers(&self) -> (r: Vec<OwnerMatcher>)
        ensures
            r@.map_values(|m: OwnerMatcher| m@) == package_matchers_spec(
                self.project_view(),
                self.packages(),
                PackageType::Ruby,
            ),
    {
        PackageMapper::build(self.project).owner_matchers(&PackageType::Ruby)
    }
}

pub struct JavascriptPackageMapper<'a> {
    project: &'a Project,
}

impl<'a> JavascriptPackageMapper<'a> {
    pub closed spec fn project_view(&self) -> ProjectView {
        self.project@
    }

    pub closed spec fn packages(&self) -> Seq<Package> {
        self.project.packages@
    }

    pub fn build(project: &'a Project) -> (r: Self)
        ensures
            r.project_view() == project@,
            r.packages() == project.packages@,
    {
        JavascriptPackageMapper { project }
    }
}

impl<'a> Mapper for JavascriptPackageMapper<'a> {
    fn name(&self) -> (r: String)
        ensures
            r@ == "Owner metadata key in package.json"@,
    {
        to_owned_string("Owner metadata key in package.json")
    }

    fn entries(&self) -> (r: Vec<Entry>)
        ensures
            r@.map_values(|e: Entry| e@) == package_entries_spec(
                self.project_view(),
                PackageType::Javascript,
            ),
    {
        PackageMapper::build(self.project).entries(&PackageType::Javascript)
    }

    fn owner_matchers(&self) -> (r: Vec<OwnerMatcher>)
        ensures
            r@.map_values(|m: OwnerMatcher| m@) == package_matchers_spec(
                self.project_view(),
                self.packages(),
                PackageType::Javascript,
            ),
    {
        PackageMapper::build(self.project).owner_matchers(&PackageType::Javascript)
    }
}

} // verus!
