//! The owner that the comparison of `verify` shows for a file: the most
//! trusted owner, or every owner when several teams own it by globs alone.
use vstd::prelude::*;

use crate::ownership::for_file_fast::{min_priority, source_priority_spec};
use crate::ownership::{FileOwner, FileOwnerView};
use crate::text::{concat, join, join_spec, str_eq, text_less, text_lt, to_owned_string};

verus! {

/// Whether one owner comes before another: a more trusted source, then the
/// team's name.
pub open spec fn owner_key_lt(a: FileOwnerView, b: FileOwnerView) -> bool {
    min_priority(a.sources) < min_priority(b.sources) || (min_priority(a.sources) == min_priority(
        b.sources,
    ) && text_lt(a.team.name, b.team.name))
}

/// The first of the owners that no other comes before.
pub open spec fn first_best(os: Seq<FileOwnerView>) -> FileOwnerView
    recommends
        os.len() > 0,
    decreases os.len(),
{
    if os.len() <= 1 {
        os[0]
    } else {
        let b = first_best(os.drop_last());
        if owner_key_lt(os.last(), b) {
            os.last()
        } else {
            b
        }
    }
}

/// The most trusted priority among the owners.
pub open spec fn top_priority(os: Seq<FileOwnerView>) -> nat
    decreases os.len(),
{
    if os.len() == 0 {
        255
    } else {
        let rest = top_priority(os.drop_last());
        let p = min_priority(os.last().sources);
        if p < rest {
            p
        } else {
            rest
        }
    }
}

/// How the owners are shown: `Unowned`; every owner of the top priority when
/// several teams own the file by globs alone; the first best owner
/// otherwise.
pub open spec fn winner_display_spec(os: Seq<FileOwnerView>) -> Seq<char> {
    if os.len() == 0 {
        "Unowned"@
    } else {
        let top = top_priority(os);
        let winners = os.filter(|o: FileOwnerView| min_priority(o.sources) == top);
        if winners.len() > 1 && top == 3 {
            "Multiple: "@ + join_spec(winners.map_values(|o: FileOwnerView| o.team.name), ", "@)
        } else {
            first_best(os).team.name
        }
    }
}

fn owner_priority(o: &FileOwner) -> (r: u8)
    ensures
        r == min_priority(o@.sources),
{
    let ghost sv = o@.sources;
    let mut best: u8 = 255;
    let mut i: usize = 0;
    while i < o.sources.len()
        invariant
            i <= o.sources.len(),
            sv == o@.sources,
            best == min_priority(sv.take(i as int)),
        decreases o.sources.len() - i,
    {
        assert(sv.take(i + 1).drop_last() =~= sv.take(i as int));
        assert(sv.take(i + 1).last() == o.sources@[i as int]@);
        let p = crate::ownership::for_file_fast::source_priority(&o.sources[i]);
        if p < best {
            best = p;
        }
        i = i + 1;
    }
    assert(sv.take(o.sources.len() as int) =~= sv);
    best
}

/// How the owners are shown in the comparison.
pub fn winner_display(owners: &Vec<FileOwner>) -> (r: String)
    ensures
        r@ == winner_display_spec(owners@.map_values(|o: FileOwner| o@)),
{
    let ghost ov = owners@.map_values(|o: FileOwner| o@);
    if owners.len() == 0 {
        return to_owned_string("Unowned");
    }
    let mut top: u8 = 255;
    let mut i: usize = 0;
    while i < owners.len()
        invariant
            i <= owners.len(),
            ov == owners@.map_values(|o: FileOwner| o@),
            top == top_priority(ov.take(i as int)),
        decreases owners.len() - i,
    {
        assert(ov.take(i + 1).drop_last() =~= ov.take(i as int));
        assert(ov.take(i + 1).last() == owners@[i as int]@);
        let p = owner_priority(&owners[i]);
        if p < top {
            top = p;
        }
        i = i + 1;
    }
    assert(ov.take(owners.len() as int) =~= ov);
    let ghost pred = |o: FileOwnerView| min_priority(o.sources) == top;
    let mut names: Vec<String> = Vec::new();
    let mut k: usize = 0;
    proof {
        reveal(Seq::filter);
        assert(ov.take(0).filter(pred).map_values(|o: FileOwnerView| o.team.name) =~= Seq::<
            Seq<char>,
        >::empty());
    }
    while k < owners.len()
        invariant
            k <= owners.len(),
            ov == owners@.map_values(|o: FileOwner| o@),
            pred == (|o: FileOwnerView| min_priority(o.sources) == top),
            names@.map_values(|s: String| s@) == ov.take(k as int).filter(pred).map_values(
                |o: FileOwnerView| o.team.name,
            ),
        decreases owners.len() - k,
    {
        let ghost before = ov.take(k as int).filter(pred);
        proof {
            reveal(Seq::filter);
            assert(ov.take(k + 1).drop_last() =~= ov.take(k as int));
            assert(ov.take(k + 1).last() == owners@[k as int]@);
        }
        if owner_priority(&owners[k]) == top {
            let ghost nb = names@;
            names.push(owners[k].team.name.clone());
            assert(ov.take(k + 1).filter(pred) == before.push(owners@[k as int]@));
            assert(names@.map_values(|s: String| s@) =~= nb.map_values(|s: String| s@).push(
                owners@[k as int]@.team.name,
            ));
            assert(before.push(owners@[k as int]@).map_values(|o: FileOwnerView| o.team.name)
                =~= before.map_values(|o: FileOwnerView| o.team.name).push(owners@[k as int]@.team.name));
        } else {
            assert(ov.take(k + 1).filter(pred) == before);
        }
        k = k + 1;
    }
    assert(ov.take(owners.len() as int) =~= ov);
    if names.len() > 1 && top == 3 {
        return concat("Multiple: ", join(&names, ", ").as_str());
    }
    let mut best: usize = 0;
    let mut j: usize = 1;
    assert(ov.take(1) =~= seq![ov[0]]);
    while j < owners.len()
        invariant
            1 <= j <= owners.len(),
            best < j,
            ov == owners@.map_values(|o: FileOwner| o@),
            first_best(ov.take(j as int)) == ov[best as int],
        decreases owners.len() - j,
    {
        assert(ov.take(j + 1).drop_last() =~= ov.take(j as int));
        assert(ov.take(j + 1).last() == ov[j as int]);
        let pj = owner_priority(&owners[j]);
        let pb = owner_priority(&owners[best]);
        assert(ov[j as int] == owners@[j as int]@ && ov[best as int] == owners@[best as int]@);
        if pj < pb || (pj == pb && text_less(owners[j].team.name.as_str(), owners[best].team.name.as_str())) {
            best = j;
        }
        j = j + 1;
    }
    assert(ov.take(owners.len() as int) =~= ov);
    assert(ov[best as int] == owners@[best as int]@);
    owners[best].team.name.clone()
}

} // verus!
