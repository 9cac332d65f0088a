//! Stable insertion sort under a total preorder, and the sorted set of a list
//! of strings.
use vstd::prelude::*;

use crate::text::{text_le, text_lt, text_less, lemma_text_lt_total, lemma_text_lt_trans};

verus! {

pub open spec fn sorted_by<T>(s: Seq<T>, le: spec_fn(T, T) -> bool) -> bool {
    forall|i: int, j: int| 0 <= i < j < s.len() ==> le(#[trigger] s[i], #[trigger] s[j])
}

pub open spec fn total_preorder<T>(le: spec_fn(T, T) -> bool) -> bool {
    &&& forall|a: T, b: T| #[trigger] le(a, b) || le(b, a)
    &&& forall|a: T, b: T, c: T| #[trigger] le(a, b) && #[trigger] le(b, c) ==> le(a, c)
}

proof fn lemma_insert_multiset<T>(s: Seq<T>, p: int, x: T)
    requires
        0 <= p <= s.len(),
    ensures
        s.insert(p, x).to_multiset() == s.to_multiset().insert(x),
{
    let t = s.insert(p, x);
    assert(t.remove(p) =~= s);
    t.to_multiset_ensures();
    assert(t[p] == x);
    assert(t.to_multiset().count(x) > 0);
    assert(t.to_multiset().remove(x) == s.to_multiset());
    assert(t.to_multiset() =~= s.to_multiset().insert(x));
}

proof fn lemma_insert_sorted<T>(s: Seq<T>, k: int, x: T, le: spec_fn(T, T) -> bool)
    requires
        sorted_by(s, le),
        0 <= k <= s.len(),
        forall|j: int| 0 <= j < k ==> le(#[trigger] s[j], x),
        forall|j: int| k <= j < s.len() ==> le(x, #[trigger] s[j]),
    ensures
        sorted_by(s.insert(k, x), le),
{
    let t = s.insert(k, x);
    s.insert_ensures(k, x);
    assert forall|i: int, j: int| 0 <= i < j < t.len() implies le(#[trigger] t[i], #[trigger] t[j]) by {
        if j < k {
            assert(le(s[i], s[j]));
        } else if i < k && j == k {
            assert(le(s[i], x));
        } else if i < k {
            assert(t[j] == s[j - 1]);
            assert(le(s[i], s[j - 1]));
        } else if i == k {
            assert(t[j] == s[j - 1]);
            assert(le(x, s[j - 1]));
        } else {
            assert(t[i] == s[i - 1]);
            assert(t[j] == s[j - 1]);
            assert(le(s[i - 1], s[j - 1]));
        }
    }
}

proof fn lemma_rest_above<T>(s: Seq<T>, k: int, x: T, le: spec_fn(T, T) -> bool)
    requires
        total_preorder(le),
        sorted_by(s, le),
        0 <= k < s.len(),
        !le(s[k], x),
    ensures
        forall|j: int| k <= j < s.len() ==> le(x, #[trigger] s[j]),
{
    assert(le(x, s[k]));
    assert forall|j: int| k <= j < s.len() implies le(x, #[trigger] s[j]) by {
        if j > k {
            assert(le(s[k], s[j]));
        }
    }
}

/// Where `x` goes into the sorted `s`: after every leading item that is not
/// above it.
pub open spec fn ins_pos<T>(s: Seq<T>, x: T, le: spec_fn(T, T) -> bool) -> nat
    decreases s.len(),
{
    if s.len() == 0 {
        0
    } else if le(s[0], x) {
        1 + ins_pos(s.drop_first(), x, le)
    } else {
        0
    }
}

/// The stable sort of `s`: each item in turn placed after the items before it
/// that are not above it. Items that compare equal keep their order.
pub open spec fn stable_sorted<T>(s: Seq<T>, le: spec_fn(T, T) -> bool) -> Seq<T>
    decreases s.len(),
{
    if s.len() == 0 {
        s
    } else {
        let r = stable_sorted(s.drop_last(), le);
        r.insert(ins_pos(r, s.last(), le) as int, s.last())
    }
}

proof fn lemma_ins_pos<T>(s: Seq<T>, x: T, le: spec_fn(T, T) -> bool, k: int)
    requires
        0 <= k <= s.len(),
        forall|j: int| 0 <= j < k ==> le(#[trigger] s[j], x),
        k == s.len() || !le(s[k], x),
    ensures
        ins_pos(s, x, le) == k,
    decreases k,
{
    if k > 0 {
        lemma_ins_pos(s.drop_first(), x, le, k - 1);
    }
}

/// Sorts `v` by the order that `le` decides, keeping items that compare equal
/// in the order they had (`sort_by` of std).
pub fn sort_by<T, F: Fn(&T, &T) -> bool>(
    v: Vec<T>,
    le: F,
    Ghost(spec_le): Ghost<spec_fn(T, T) -> bool>,
) -> (r: Vec<T>)
    requires
        total_preorder(spec_le),
        forall|a: &T, b: &T| #[trigger] le.requires((a, b)),
        forall|a: &T, b: &T, res: bool| le.ensures((a, b), res) ==> res == spec_le(*a, *b),
    ensures
        r@ == stable_sorted(v@, spec_le),
        r@.to_multiset() == v@.to_multiset(),
        sorted_by(r@, spec_le),
{
    let mut input = v;
    let ghost orig = input@;
    let mut out: Vec<T> = Vec::new();
    let total = input.len();
    assert(orig.len() == total);
    assert(orig.skip(0) =~= orig);
    assert(out@ =~= orig.take(0));
    assert(stable_sorted(orig.take(0), spec_le) =~= out@);
    let mut consumed: usize = 0;
    while input.len() > 0
        invariant
            total_preorder(spec_le),
            forall|a: &T, b: &T| #[trigger] le.requires((a, b)),
            forall|a: &T, b: &T, res: bool| le.ensures((a, b), res) ==> res == spec_le(*a, *b),
            consumed + input.len() == orig.len(),
            orig.len() <= usize::MAX,
            input@ == orig.skip(consumed as int),
            out@.to_multiset() == orig.take(consumed as int).to_multiset(),
            out@ == stable_sorted(orig.take(consumed as int), spec_le),
            sorted_by(out@, spec_le),
        decreases input.len(),
    {
        let x = input.remove(0);
        assert(input@ =~= orig.skip(consumed + 1));
        let mut k: usize = 0;
        while k < out.len() && le(&out[k], &x)
            invariant
                forall|a: &T, b: &T| #[trigger] le.requires((a, b)),
                forall|a: &T, b: &T, res: bool| le.ensures((a, b), res) ==> res == spec_le(*a, *b),
                k <= out.len(),
                forall|j: int| 0 <= j < k ==> spec_le(#[trigger] out@[j], x),
            decreases out.len() - k,
        {
            k = k + 1;
        }
        proof {
            lemma_ins_pos(out@, x, spec_le, k as int);
            assert(orig.take(consumed + 1).drop_last() =~= orig.take(consumed as int));
            assert(orig.take(consumed + 1).last() == x);
            if k < out.len() {
                lemma_rest_above(out@, k as int, x, spec_le);
            }
            lemma_insert_sorted(out@, k as int, x, spec_le);
            lemma_insert_multiset(out@, k as int, x);
            assert(orig.take(consumed + 1) =~= orig.take(consumed as int).push(x));
            orig.take(consumed as int).to_multiset_ensures();
        }
        out.insert(k, x);
        consumed = consumed + 1;
    }
    assert(orig.take(orig.len() as int) =~= orig);
    out
}

proof fn lemma_ins_pos_map<T, U>(
    s: Seq<T>,
    x: T,
    le: spec_fn(T, T) -> bool,
    f: spec_fn(T) -> U,
    le2: spec_fn(U, U) -> bool,
)
    requires
        forall|a: T, b: T| #[trigger] le(a, b) == le2(f(a), f(b)),
    ensures
        ins_pos(s, x, le) == ins_pos(s.map_values(f), f(x), le2),
    decreases s.len(),
{
    if s.len() > 0 {
        assert(s.map_values(f).drop_first() =~= s.drop_first().map_values(f));
        assert(le(s[0], x) == le2(f(s[0]), f(x)));
        lemma_ins_pos_map(s.drop_first(), x, le, f, le2);
    }
}

proof fn lemma_ins_pos_below<T>(s: Seq<T>, x: T, le: spec_fn(T, T) -> bool)
    ensures
        ins_pos(s, x, le) <= s.len(),
        forall|j: int| 0 <= j < ins_pos(s, x, le) ==> le(#[trigger] s[j], x),
        ins_pos(s, x, le) < s.len() ==> !le(s[ins_pos(s, x, le) as int], x),
    decreases s.len(),
{
    if s.len() > 0 && le(s[0], x) {
        lemma_ins_pos_below(s.drop_first(), x, le);
        assert forall|j: int| 0 <= j < ins_pos(s, x, le) implies le(#[trigger] s[j], x) by {
            if j > 0 {
                assert(s[j] == s.drop_first()[j - 1]);
            }
        }
    }
}

/// A stable sort under a total preorder gives a sorted list of the same
/// items.
pub proof fn lemma_stable_sorted_is_sorted<T>(s: Seq<T>, le: spec_fn(T, T) -> bool)
    requires
        total_preorder(le),
    ensures
        sorted_by(stable_sorted(s, le), le),
        stable_sorted(s, le).to_multiset() == s.to_multiset(),
    decreases s.len(),
{
    if s.len() > 0 {
        let r = stable_sorted(s.drop_last(), le);
        lemma_stable_sorted_is_sorted(s.drop_last(), le);
        let x = s.last();
        lemma_ins_pos_below(r, x, le);
        let k = ins_pos(r, x, le) as int;
        if k < r.len() {
            lemma_rest_above(r, k, x, le);
        }
        lemma_insert_sorted(r, k, x, le);
        lemma_insert_multiset(r, k, x);
        assert(s =~= s.drop_last().push(x));
        s.drop_last().to_multiset_ensures();
    } else {
        assert(stable_sorted(s, le) == s);
    }
}

/// Sorting commutes with a map that carries one order onto the other.
pub proof fn lemma_stable_sorted_map<T, U>(
    s: Seq<T>,
    le: spec_fn(T, T) -> bool,
    f: spec_fn(T) -> U,
    le2: spec_fn(U, U) -> bool,
)
    requires
        forall|a: T, b: T| #[trigger] le(a, b) == le2(f(a), f(b)),
    ensures
        stable_sorted(s, le).map_values(f) == stable_sorted(s.map_values(f), le2),
    decreases s.len(),
{
    if s.len() > 0 {
        let r = stable_sorted(s.drop_last(), le);
        lemma_stable_sorted_map(s.drop_last(), le, f, le2);
        assert(s.map_values(f).drop_last() =~= s.drop_last().map_values(f));
        assert(s.map_values(f).last() == f(s.last()));
        lemma_ins_pos_map(r, s.last(), le, f, le2);
        let k = ins_pos(r, s.last(), le) as int;
        assert(k <= r.len()) by {
            lemma_ins_pos_bound(r, s.last(), le);
        }
        assert(r.insert(k, s.last()).map_values(f) =~= r.map_values(f).insert(k, f(s.last())));
    }
}

proof fn lemma_ins_pos_bound<T>(s: Seq<T>, x: T, le: spec_fn(T, T) -> bool)
    ensures
        ins_pos(s, x, le) <= s.len(),
    decreases s.len(),
{
    if s.len() > 0 {
        lemma_ins_pos_bound(s.drop_first(), x, le);
    }
}

/// The order of texts, equal texts not apart, is a total preorder.
pub proof fn lemma_text_le_total_preorder()
    ensures
        total_preorder(|a: Seq<char>, b: Seq<char>| text_le(a, b)),
{
    let le = |a: Seq<char>, b: Seq<char>| text_le(a, b);
    assert forall|a: Seq<char>, b: Seq<char>| #[trigger] le(a, b) || le(b, a) by {
        lemma_text_lt_total(a, b);
    }
    assert forall|a: Seq<char>, b: Seq<char>, c: Seq<char>| #[trigger] le(a, b) && #[trigger] le(
        b,
        c,
    ) implies le(a, c) by {
        if text_lt(a, b) && text_lt(b, c) {
            lemma_text_lt_trans(a, b, c);
        }
    }
}

/// The distinct texts of a list, in increasing order.
pub open spec fn strictly_increasing(s: Seq<Seq<char>>) -> bool {
    forall|i: int, j: int| 0 <= i < j < s.len() ==> text_lt(#[trigger] s[i], #[trigger] s[j])
}

/// The distinct texts of `s` in increasing order.
pub open spec fn sorted_set(s: Seq<Seq<char>>) -> Seq<Seq<char>> {
    choose|r: Seq<Seq<char>>| strictly_increasing(r) && r.to_set() == s.to_set()
}

proof fn lemma_increasing_first_least(s: Seq<Seq<char>>, e: Seq<char>)
    requires
        strictly_increasing(s),
        s.to_set().contains(e),
    ensures
        s.len() > 0,
        e == s[0] || text_lt(s[0], e),
{
    let i = choose|i: int| 0 <= i < s.len() && s[i] == e;
    if i > 0 {
        assert(text_lt(s[0], s[i]));
    }
}

/// Two increasing lists of the same texts are the same list.
pub proof fn lemma_increasing_unique(s: Seq<Seq<char>>, t: Seq<Seq<char>>)
    requires
        strictly_increasing(s),
        strictly_increasing(t),
        s.to_set() == t.to_set(),
    ensures
        s == t,
    decreases s.len(),
{
    if s.len() == 0 {
        if t.len() > 0 {
            assert(t.to_set().contains(t[0]));
        }
        assert(s =~= t);
    } else {
        assert(s.to_set().contains(s[0]));
        lemma_increasing_first_least(t, s[0]);
        assert(t.to_set().contains(t[0]));
        lemma_increasing_first_least(s, t[0]);
        if s[0] != t[0] {
            lemma_text_lt_trans(s[0], t[0], s[0]);
            crate::text::lemma_text_lt_irreflexive(s[0]);
        }
        let s1 = s.drop_first();
        let t1 = t.drop_first();
        assert forall|e: Seq<char>| s1.to_set().contains(e) <==> t1.to_set().contains(e) by {
            if s1.to_set().contains(e) {
                let i = choose|i: int| 0 <= i < s1.len() && s1[i] == e;
                assert(text_lt(s[0], s[i + 1]));
                assert(s.to_set().contains(e));
                assert(t.to_set().contains(e));
                let j = choose|j: int| 0 <= j < t.len() && t[j] == e;
                if j == 0 {
                    crate::text::lemma_text_lt_irreflexive(e);
                }
                assert(t1[j - 1] == e);
            }
            if t1.to_set().contains(e) {
                let i = choose|i: int| 0 <= i < t1.len() && t1[i] == e;
                assert(text_lt(t[0], t[i + 1]));
                assert(t.to_set().contains(e));
                assert(s.to_set().contains(e));
                let j = choose|j: int| 0 <= j < s.len() && s[j] == e;
                if j == 0 {
                    crate::text::lemma_text_lt_irreflexive(e);
                }
                assert(s1[j - 1] == e);
            }
        }
        assert(s1.to_set() =~= t1.to_set());
        assert forall|a: int, b: int| 0 <= a < b < s1.len() implies text_lt(
            #[trigger] s1[a],
            #[trigger] s1[b],
        ) by {
            assert(text_lt(s[a + 1], s[b + 1]));
        }
        assert forall|a: int, b: int| 0 <= a < b < t1.len() implies text_lt(
            #[trigger] t1[a],
            #[trigger] t1[b],
        ) by {
            assert(text_lt(t[a + 1], t[b + 1]));
        }
        lemma_increasing_unique(s1, t1);
        assert(s =~= seq![s[0]] + s1);
        assert(t =~= seq![t[0]] + t1);
    }
}

/// The texts of `v` without repetition, in increasing order: `sort` followed
/// by `dedup`.
pub fn sorted_unique(v: Vec<String>) -> (r: Vec<String>)
    ensures
        strictly_increasing(r@.map_values(|s: String| s@)),
        r@.map_values(|s: String| s@).to_set() == v@.map_values(|s: String| s@).to_set(),
        r@.map_values(|s: String| s@) == sorted_set(v@.map_values(|s: String| s@)),
{
    let ghost vv = v@.map_values(|s: String| s@);
    let mut out: Vec<String> = Vec::new();
    let mut i: usize = 0;
    while i < v.len()
        invariant
            vv == v@.map_values(|s: String| s@),
            i <= v.len(),
            strictly_increasing(out@.map_values(|s: String| s@)),
            out@.map_values(|s: String| s@).to_set() == vv.take(i as int).to_set(),
        decreases v.len() - i,
    {
        let ghost ov = out@.map_values(|s: String| s@);
        let x = &v[i];
        let mut k: usize = 0;
        while k < out.len() && text_less(out[k].as_str(), x.as_str())
            invariant
                ov == out@.map_values(|s: String| s@),
                k <= out.len(),
                forall|j: int| 0 <= j < k ==> text_lt(#[trigger] ov[j], x@),
            decreases out.len() - k,
        {
            k = k + 1;
        }
        assert(vv.take(i + 1) =~= vv.take(i as int).push(x@));
        if k < out.len() && out[k] == *x {
            assert(ov.to_set().contains(x@)) by {
                assert(ov[k as int] == x@);
            }
            assert(vv.take(i + 1).to_set() =~= vv.take(i as int).to_set().insert(x@)) by {
                broadcast use vstd::seq_lib::group_seq_properties;
            }
        } else {
            proof {
                if k < out.len() {
                    lemma_text_lt_total(ov[k as int], x@);
                    assert(text_lt(x@, ov[k as int]));
                }
            }
            let ghost before = out@;
            out.insert(k, x.clone());
            proof {
                let nv = out@.map_values(|s: String| s@);
                assert(nv =~= ov.insert(k as int, x@));
                ov.insert_ensures(k as int, x@);
                assert forall|a: int, b: int| 0 <= a < b < nv.len() implies text_lt(
                    #[trigger] nv[a],
                    #[trigger] nv[b],
                ) by {
                    if b < k {
                    } else if a < k && b == k {
                    } else if a < k {
                        assert(nv[b] == ov[b - 1]);
                        lemma_text_lt_trans(ov[a], x@, ov[k as int]);
                        if b - 1 > k {
                            lemma_text_lt_trans(ov[a], ov[k as int], ov[b - 1]);
                        }
                    } else if a == k {
                        assert(nv[b] == ov[b - 1]);
                        if b - 1 > k {
                            lemma_text_lt_trans(x@, ov[k as int], ov[b - 1]);
                        }
                    } else {
                        assert(nv[a] == ov[a - 1]);
                        assert(nv[b] == ov[b - 1]);
                    }
                }
                assert(nv.to_set() =~= ov.to_set().insert(x@)) by {
                    assert forall|e: Seq<char>| nv.to_set().contains(e) implies ov.to_set().insert(
                        x@,
                    ).contains(e) by {
                        let a = choose|a: int| 0 <= a < nv.len() && nv[a] == e;
                        if a < k {
                            assert(ov[a] == e);
                        } else if a > k {
                            assert(ov[a - 1] == e);
                        }
                    }
                    assert forall|e: Seq<char>| ov.to_set().insert(x@).contains(e) implies nv.to_set().contains(
                        e,
                    ) by {
                        if e == x@ {
                            assert(nv[k as int] == e);
                        } else {
                            let a = choose|a: int| 0 <= a < ov.len() && ov[a] == e;
                            if a < k {
                                assert(nv[a] == e);
                            } else {
                                assert(nv[a + 1] == e);
                            }
                        }
                    }
                }
                assert(vv.take(i + 1).to_set() =~= vv.take(i as int).to_set().insert(x@)) by {
                    broadcast use vstd::seq_lib::group_seq_properties;
                }
            }
        }
        i = i + 1;
    }
    assert(vv.take(v.len() as int) =~= vv);
    proof {
        let ov = out@.map_values(|s: String| s@);
        let c = sorted_set(vv);
        assert(strictly_increasing(c) && c.to_set() == vv.to_set());
        lemma_increasing_unique(ov, c);
    }
    out
}

/// The texts in increasing order, repetitions kept (`sort` of std).
pub fn sort_texts(v: Vec<String>) -> (r: Vec<String>)
    ensures
        r@.map_values(|s: String| s@) == stable_sorted(
            v@.map_values(|s: String| s@),
            |a: Seq<char>, b: Seq<char>| text_le(a, b),
        ),
{
    let ghost vv = v@;
    let ghost sle = |a: String, b: String| text_le(a@, b@);
    let ghost vle = |a: Seq<char>, b: Seq<char>| text_le(a, b);
    proof {
        lemma_text_le_total_preorder();
        assert forall|a: String, b: String| #[trigger] sle(a, b) || sle(b, a) by {
            assert(vle(a@, b@) || vle(b@, a@));
        }
        assert forall|a: String, b: String, c: String| #[trigger] sle(a, b) && #[trigger] sle(
            b,
            c,
        ) implies sle(a, c) by {
            assert(vle(a@, b@) && vle(b@, c@) ==> vle(a@, c@));
        }
        assert forall|a: String, b: String| #[trigger] sle(a, b) == vle(a@, b@) by {}
        lemma_stable_sorted_map(vv, sle, |s: String| s@, vle);
    }
    let not_after = |a: &String, b: &String| -> (r: bool)
        ensures
            r == text_le(a@, b@),
        { text_less(a.as_str(), b.as_str()) || crate::text::str_eq(a.as_str(), b.as_str()) };
    sort_by(v, not_after, Ghost(sle))
}

/// `t` with each run of equal neighbours kept once.
pub open spec fn dedup_adjacent(t: Seq<Seq<char>>) -> Seq<Seq<char>>
    decreases t.len(),
{
    if t.len() == 0 {
        t
    } else {
        let d = dedup_adjacent(t.drop_last());
        if d.len() > 0 && d.last() == t.last() {
            d
        } else {
            d.push(t.last())
        }
    }
}

proof fn lemma_dedup_adjacent(t: Seq<Seq<char>>)
    requires
        sorted_by(t, |a: Seq<char>, b: Seq<char>| text_le(a, b)),
    ensures
        strictly_increasing(dedup_adjacent(t)),
        dedup_adjacent(t).to_set() == t.to_set(),
        t.len() > 0 ==> dedup_adjacent(t).len() > 0 && dedup_adjacent(t).last() == t.last(),
    decreases t.len(),
{
    if t.len() > 0 {
        let init = t.drop_last();
        let x = t.last();
        let le = |a: Seq<char>, b: Seq<char>| text_le(a, b);
        assert(sorted_by(init, le)) by {
            assert forall|i: int, j: int| 0 <= i < j < init.len() implies le(#[trigger] init[i], #[trigger] init[j]) by {
                assert(init[i] == t[i] && init[j] == t[j]);
            }
        }
        lemma_dedup_adjacent(init);
        let d = dedup_adjacent(init);
        assert(t =~= init.push(x));
        assert(t.to_set() =~= init.to_set().insert(x)) by {
            assert forall|y: Seq<char>| t.contains(y) <==> (init.contains(y) || y == x) by {
                if t.contains(y) {
                    let i = choose|i: int| 0 <= i < t.len() && t[i] == y;
                    if i < init.len() {
                        assert(init[i] == y);
                    }
                }
                if init.contains(y) {
                    let i = choose|i: int| 0 <= i < init.len() && init[i] == y;
                    assert(t[i] == y);
                }
                if y == x {
                    assert(t[t.len() - 1] == y);
                }
            }
        }
        if d.len() > 0 && d.last() == x {
            assert(init.len() > 0);
            assert(init.to_set().contains(x)) by {
                assert(d.to_set().contains(d.last())) by {
                    assert(d[d.len() - 1] == d.last());
                }
            }
        } else {
            let r = d.push(x);
            assert(r.to_set() =~= d.to_set().insert(x)) by {
                assert forall|y: Seq<char>| r.contains(y) <==> (d.contains(y) || y == x) by {
                    if r.contains(y) {
                        let i = choose|i: int| 0 <= i < r.len() && r[i] == y;
                        if i < d.len() {
                            assert(d[i] == y);
                        }
                    }
                    if d.contains(y) {
                        let i = choose|i: int| 0 <= i < d.len() && d[i] == y;
                        assert(r[i] == y);
                    }
                    if y == x {
                        assert(r[r.len() - 1] == y);
                    }
                }
            }
            if d.len() > 0 {
                assert(le(t[t.len() - 2], t[t.len() - 1]));
                assert(init.last() == t[t.len() - 2]);
                assert(text_lt(d.last(), x));
                assert forall|i: int, j: int| 0 <= i < j < r.len() implies text_lt(#[trigger] r[i], #[trigger] r[j]) by {
                    if j < d.len() {
                        assert(r[i] == d[i] && r[j] == d[j]);
                    } else {
                        assert(r[j] == x);
                        assert(r[i] == d[i]);
                        if i < d.len() - 1 {
                            assert(text_lt(d[i], d[d.len() - 1]));
                            lemma_text_lt_trans(d[i], d.last(), x);
                        }
                    }
                }
            }
        }
    }
}

/// `sorted_set` is what its name says: the distinct texts of `s`, in
/// increasing order.
pub proof fn lemma_sorted_set(s: Seq<Seq<char>>)
    ensures
        strictly_increasing(sorted_set(s)),
        sorted_set(s).to_set() == s.to_set(),
{
    let le = |a: Seq<char>, b: Seq<char>| text_le(a, b);
    lemma_text_le_total_preorder();
    lemma_stable_sorted_is_sorted(s, le);
    let st = stable_sorted(s, le);
    lemma_dedup_adjacent(st);
    let w = dedup_adjacent(st);
    assert(st.to_set() =~= s.to_set()) by {
        st.to_multiset_ensures();
        s.to_multiset_ensures();
        assert forall|y: Seq<char>| st.to_set().contains(y) <==> s.to_set().contains(y) by {
            assert(st.to_multiset().count(y) == s.to_multiset().count(y));
            assert(st.to_set().contains(y) == st.contains(y));
            assert(s.to_set().contains(y) == s.contains(y));
        }
    }
    assert(strictly_increasing(w) && w.to_set() == s.to_set());
}

} // verus!
