//! Paths held as text with `/` as separator, read the way `std::path::Path`
//! reads them: a leading `/` is the root, the pieces between separators are
//! the components, and empty pieces do not count.
use vstd::prelude::*;

use crate::text::{
    join_spec, lemma_text_lt_irreflexive, lemma_text_lt_total, lemma_text_lt_trans, push_str, text_less,
    text_lt,
};

verus! {

pub open spec fn root_component() -> Seq<char> {
    seq!['/']
}

/// The pieces of `p` between separators, with the current partial piece.
pub open spec fn pieces_state(p: Seq<char>) -> (Seq<Seq<char>>, Seq<char>)
    decreases p.len(),
{
    if p.len() == 0 {
        (Seq::empty(), Seq::empty())
    } else {
        let (done, cur) = pieces_state(p.drop_last());
        if p.last() == '/' {
            if cur.len() > 0 {
                (done.push(cur), Seq::empty())
            } else {
                (done, cur)
            }
        } else {
            (done, cur.push(p.last()))
        }
    }
}

/// The non-empty pieces of `p` between separators.
pub open spec fn pieces(p: Seq<char>) -> Seq<Seq<char>> {
    let (done, cur) = pieces_state(p);
    if cur.len() > 0 {
        done.push(cur)
    } else {
        done
    }
}

pub open spec fn is_absolute(p: Seq<char>) -> bool {
    p.len() > 0 && p[0] == '/'
}

/// The pieces of `ps` other than `.`.
pub open spec fn drop_dots(ps: Seq<Seq<char>>) -> Seq<Seq<char>>
    decreases ps.len(),
{
    if ps.len() == 0 {
        ps
    } else {
        let d = drop_dots(ps.drop_last());
        if ps.last() == seq!['.'] {
            d
        } else {
            d.push(ps.last())
        }
    }
}

/// The components of a path: the root first when the path is absolute, then
/// its non-empty pieces; a `.` piece counts only at the start of a relative
/// path.
pub open spec fn components(p: Seq<char>) -> Seq<Seq<char>> {
    if is_absolute(p) {
        seq![root_component()] + drop_dots(pieces(p))
    } else if pieces(p).len() > 0 && pieces(p)[0] == seq!['.'] {
        seq![seq!['.']] + drop_dots(pieces(p).drop_first())
    } else {
        drop_dots(pieces(p))
    }
}

/// The text of a path made of the components `cs`.
pub open spec fn render(cs: Seq<Seq<char>>) -> Seq<char> {
    if cs.len() > 0 && cs[0] == root_component() {
        root_component() + join_spec(cs.drop_first(), seq!['/'])
    } else {
        join_spec(cs, seq!['/'])
    }
}

/// `Path::strip_prefix`: the rest of `path` after the components of `base`,
/// when `base`'s components begin `path`'s.
pub open spec fn strip_prefix_spec(base: Seq<char>, path: Seq<char>) -> Option<Seq<char>> {
    let b = components(base);
    let c = components(path);
    if b.is_prefix_of(c) {
        Some(render(c.skip(b.len() as int)))
    } else {
        None
    }
}

/// `Path::parent`.
pub open spec fn parent_spec(p: Seq<char>) -> Option<Seq<char>> {
    let c = components(p);
    if c.len() == 0 || (c.len() == 1 && c[0] == root_component()) {
        None
    } else {
        Some(render(c.drop_last()))
    }
}

/// `Path::file_name`: the last component, unless it is the root.
pub open spec fn file_name_spec(p: Seq<char>) -> Option<Seq<char>> {
    let c = components(p);
    if c.len() == 0 || (c.len() == 1 && is_absolute(p)) {
        None
    } else {
        Some(c.last())
    }
}

/// `Path::join`: an absolute `rel` replaces `base`; otherwise `rel` follows
/// `base`, with a separator between them when `base` is not empty and does not
/// already end with one.
pub open spec fn join_path_spec(base: Seq<char>, rel: Seq<char>) -> Seq<char> {
    if is_absolute(rel) {
        rel
    } else if base.len() == 0 || base.last() == '/' {
        base + rel
    } else {
        base + seq!['/'] + rel
    }
}

/// `Path::starts_with`: the components of `base` begin those of `p`.
pub open spec fn path_starts_with_spec(p: Seq<char>, base: Seq<char>) -> bool {
    components(base).is_prefix_of(components(p))
}

/// `Path`'s `==`: equal components.
pub open spec fn path_eq_spec(a: Seq<char>, b: Seq<char>) -> bool {
    components(a) == components(b)
}

/// `Path`'s `<`: the components compared one by one.
pub open spec fn components_lt(a: Seq<Seq<char>>, b: Seq<Seq<char>>) -> bool
    decreases a.len(),
{
    if a.len() == 0 {
        b.len() > 0
    } else if b.len() == 0 {
        false
    } else if text_lt(a[0], b[0]) {
        true
    } else if a[0] == b[0] {
        components_lt(a.drop_first(), b.drop_first())
    } else {
        false
    }
}

pub proof fn lemma_components_lt_irreflexive(a: Seq<Seq<char>>)
    ensures
        !components_lt(a, a),
    decreases a.len(),
{
    if a.len() > 0 {
        lemma_text_lt_irreflexive(a[0]);
        lemma_components_lt_irreflexive(a.drop_first());
    }
}

pub proof fn lemma_components_lt_trans(a: Seq<Seq<char>>, b: Seq<Seq<char>>, c: Seq<Seq<char>>)
    requires
        components_lt(a, b),
        components_lt(b, c),
    ensures
        components_lt(a, c),
    decreases a.len(),
{
    if a.len() > 0 && b.len() > 0 && c.len() > 0 {
        if text_lt(a[0], b[0]) && text_lt(b[0], c[0]) {
            lemma_text_lt_trans(a[0], b[0], c[0]);
        } else if a[0] == b[0] && b[0] == c[0] {
            lemma_components_lt_trans(a.drop_first(), b.drop_first(), c.drop_first());
        }
    }
}

pub proof fn lemma_components_lt_total(a: Seq<Seq<char>>, b: Seq<Seq<char>>)
    ensures
        components_lt(a, b) || components_lt(b, a) || a == b,
    decreases a.len(),
{
    if a.len() > 0 && b.len() > 0 {
        lemma_text_lt_total(a[0], b[0]);
        if a[0] == b[0] {
            lemma_components_lt_total(a.drop_first(), b.drop_first());
            if a.drop_first() == b.drop_first() {
                assert(a =~= seq![a[0]] + a.drop_first());
                assert(b =~= seq![b[0]] + b.drop_first());
            }
        }
    } else if a.len() == 0 && b.len() == 0 {
        assert(a =~= b);
    }
}

pub open spec fn path_lt_spec(a: Seq<char>, b: Seq<char>) -> bool {
    components_lt(components(a), components(b))
}

pub open spec fn view_strings(v: Seq<String>) -> Seq<Seq<char>> {
    v.map_values(|s: String| s@)
}

/// The non-empty pieces of `p`.
fn pieces_of(p: &Vec<char>) -> (r: Vec<Vec<char>>)
    ensures
        r@.map_values(|x: Vec<char>| x@) == pieces(p@),
{
    let mut done: Vec<Vec<char>> = Vec::new();
    let mut cur: Vec<char> = Vec::new();
    let mut i: usize = 0;
    while i < p.len()
        invariant
            i <= p.len(),
            (done@.map_values(|x: Vec<char>| x@), cur@) == pieces_state(p@.take(i as int)),
        decreases p.len() - i,
    {
        assert(p@.take(i + 1).drop_last() =~= p@.take(i as int));
        if p[i] == '/' {
            if cur.len() > 0 {
                let ghost before = done@;
                let ghost c = cur@;
                done.push(cur);
                assert(done@.map_values(|x: Vec<char>| x@) =~= before.map_values(
                    |x: Vec<char>| x@,
                ).push(c));
                cur = Vec::new();
            }
        } else {
            cur.push(p[i]);
        }
        i = i + 1;
    }
    assert(p@.take(p.len() as int) =~= p@);
    if cur.len() > 0 {
        let ghost before = done@;
        let ghost c = cur@;
        done.push(cur);
        assert(done@.map_values(|x: Vec<char>| x@) =~= before.map_values(|x: Vec<char>| x@).push(
            c,
        ));
    }
    done
}

/// A fresh vector with the same characters.
pub fn copy_chars(v: &Vec<char>) -> (r: Vec<char>)
    ensures
        r@ == v@,
{
    let mut r: Vec<char> = Vec::new();
    let mut i: usize = 0;
    while i < v.len()
        invariant
            i <= v.len(),
            r@ == v@.take(i as int),
        decreases v.len() - i,
    {
        r.push(v[i]);
        assert(v@.take(i + 1) =~= v@.take(i as int).push(v@[i as int]));
        i = i + 1;
    }
    assert(v@.take(v.len() as int) =~= v@);
    r
}

/// The components of the path `p`.
pub fn path_components(p: &str) -> (r: Vec<Vec<char>>)
    ensures
        r@.map_values(|x: Vec<char>| x@) == components(p@),
{
    let v = crate::text::chars_of(p);
    let ps = pieces_of(&v);
    let ghost pv = ps@.map_values(|x: Vec<char>| x@);
    let mut r: Vec<Vec<char>> = Vec::new();
    let mut start: usize = 0;
    if v.len() > 0 && v[0] == '/' {
        let mut root: Vec<char> = Vec::new();
        root.push('/');
        r.push(root);
        assert(r@.map_values(|x: Vec<char>| x@) =~= seq![root_component()]);
    } else if ps.len() > 0 && ps[0].len() == 1 && ps[0][0] == '.' {
        let mut dot: Vec<char> = Vec::new();
        dot.push('.');
        r.push(dot);
        start = 1;
        assert(pv[0] =~= seq!['.']);
        assert(r@.map_values(|x: Vec<char>| x@) =~= seq![seq!['.']]);
    } else {
        proof {
            if pv.len() > 0 {
                assert(pv[0] != seq!['.']) by {
                    if pv[0] == seq!['.'] {
                        assert(ps@[0]@.len() == 1 && ps@[0]@[0] == '.');
                    }
                }
            }
        }
    }
    let ghost head = r@.map_values(|x: Vec<char>| x@);
    let mut i: usize = start;
    assert(pv.subrange(start as int, start as int) =~= Seq::<Seq<char>>::empty());
    assert(head + drop_dots(pv.subrange(start as int, start as int)) =~= head);
    while i < ps.len()
        invariant
            start <= i <= ps.len(),
            pv == ps@.map_values(|x: Vec<char>| x@),
            r@.map_values(|x: Vec<char>| x@) == head + drop_dots(pv.subrange(start as int, i as int)),
        decreases ps.len() - i,
    {
        let ghost before = r@;
        assert(pv.subrange(start as int, i + 1).drop_last() =~= pv.subrange(start as int, i as int));
        assert(pv.subrange(start as int, i + 1).last() == pv[i as int]);
        if !(ps[i].len() == 1 && ps[i][0] == '.') {
            let cp = copy_chars(&ps[i]);
            r.push(cp);
            proof {
                if pv[i as int] == seq!['.'] {
                    assert(ps@[i as int]@.len() == 1 && ps@[i as int]@[0] == '.');
                }
            }
            assert(r@.map_values(|x: Vec<char>| x@) =~= before.map_values(|x: Vec<char>| x@).push(
                pv[i as int],
            ));
        } else {
            assert(pv[i as int] =~= seq!['.']);
        }
        i = i + 1;
    }
    proof {
        assert(pv.subrange(start as int, ps.len() as int) =~= if start == 0 {
            pv
        } else {
            pv.drop_first()
        });
    }
    r
}

/// Writes the components `cs[from..]` as path text.
fn render_from(cs: &Vec<Vec<char>>, from: usize) -> (r: String)
    requires
        from <= cs.len(),
    ensures
        r@ == render(cs@.map_values(|x: Vec<char>| x@).skip(from as int)),
{
    let ghost all = cs@.map_values(|x: Vec<char>| x@);
    let ghost rest = all.skip(from as int);
    let mut r = String::new();
    let mut start = from;
    if from < cs.len() && cs[from].len() == 1 && cs[from][0] == '/' {
        assert(rest[0] =~= root_component());
        r.push('/');
        start = from + 1;
    }
    let ghost tail = all.skip(start as int);
    proof {
        if start == from + 1 {
            assert(tail =~= rest.drop_first());
        } else {
            assert(tail =~= rest);
            if rest.len() > 0 {
                assert(rest[0] != root_component()) by {
                    if rest[0] == root_component() {
                        assert(rest[0].len() == 1);
                        assert(cs@[from as int]@ == rest[0]);
                    }
                }
            }
        }
    }
    let ghost prefix = r@;
    let mut i: usize = start;
    while i < cs.len()
        invariant
            start <= i <= cs.len(),
            all == cs@.map_values(|x: Vec<char>| x@),
            tail == all.skip(start as int),
            r@ == prefix + join_spec(tail.take(i - start), seq!['/']),
        decreases cs.len() - i,
    {
        assert(tail.take(i - start + 1).drop_last() =~= tail.take(i - start));
        assert(tail.take(i - start + 1).last() == cs@[i as int]@);
        if i > start {
            r.push('/');
        } else {
            assert(tail.take(1).len() == 1);
        }
        let piece = crate::text::string_of(&cs[i]);
        push_str(&mut r, piece.as_str());
        proof {
            if i > start {
                assert(r@ =~= prefix + (join_spec(tail.take(i - start), seq!['/']) + seq!['/']
                    + cs@[i as int]@));
            } else {
                assert(join_spec(tail.take(1), seq!['/']) == tail.take(1)[0]);
                assert(r@ =~= prefix + cs@[i as int]@);
            }
        }
        i = i + 1;
    }
    assert(tail.take(cs.len() - start) =~= tail);
    r
}

/// Whether the components `b` begin the components `c`.
fn components_prefix(b: &Vec<Vec<char>>, c: &Vec<Vec<char>>) -> (r: bool)
    ensures
        r == b@.map_values(|x: Vec<char>| x@).is_prefix_of(c@.map_values(|x: Vec<char>| x@)),
{
    let ghost bv = b@.map_values(|x: Vec<char>| x@);
    let ghost cv = c@.map_values(|x: Vec<char>| x@);
    if b.len() > c.len() {
        return false;
    }
    let mut i: usize = 0;
    while i < b.len()
        invariant
            b.len() <= c.len(),
            i <= b.len(),
            bv == b@.map_values(|x: Vec<char>| x@),
            cv == c@.map_values(|x: Vec<char>| x@),
            forall|j: int| 0 <= j < i ==> bv[j] == cv[j],
        decreases b.len() - i,
    {
        if !chars_equal(&b[i], &c[i]) {
            assert(cv.subrange(0, bv.len() as int)[i as int] == cv[i as int]);
            return false;
        }
        i = i + 1;
    }
    assert(bv =~= cv.subrange(0, bv.len() as int));
    true
}

fn chars_equal(a: &Vec<char>, b: &Vec<char>) -> (r: bool)
    ensures
        r == (a@ == b@),
{
    if a.len() != b.len() {
        return false;
    }
    let mut i: usize = 0;
    while i < a.len()
        invariant
            a.len() == b.len(),
            i <= a.len(),
            forall|j: int| 0 <= j < i ==> a@[j] == b@[j],
        decreases a.len() - i,
    {
        if a[i] != b[i] {
            return false;
        }
        i = i + 1;
    }
    assert(a@ =~= b@);
    true
}

/// `Path::strip_prefix`, as text.
pub fn strip_prefix(base: &str, path: &str) -> (r: Option<String>)
    ensures
        match r {
            Some(s) => strip_prefix_spec(base@, path@) == Some(s@),
            None => strip_prefix_spec(base@, path@) is None,
        },
{
    let b = path_components(base);
    let c = path_components(path);
    if components_prefix(&b, &c) {
        Some(render_from(&c, b.len()))
    } else {
        None
    }
}

/// `Path::parent`, as text.
pub fn parent(p: &str) -> (r: Option<String>)
    ensures
        match r {
            Some(s) => parent_spec(p@) == Some(s@),
            None => parent_spec(p@) is None,
        },
{
    let mut c = path_components(p);
    let ghost cv = c@.map_values(|x: Vec<char>| x@);
    if c.len() == 0 {
        return None;
    }
    if c.len() == 1 && c[0].len() == 1 && c[0][0] == '/' {
        assert(cv[0] =~= root_component());
        return None;
    }
    proof {
        if c.len() == 1 && cv[0] == root_component() {
            assert(c@[0]@.len() == 1);
            assert(c@[0]@[0] == '/');
        }
    }
    c.pop();
    assert(c@.map_values(|x: Vec<char>| x@) =~= cv.drop_last());
    let r = render_from(&c, 0);
    assert(c@.map_values(|x: Vec<char>| x@).skip(0) =~= cv.drop_last());
    Some(r)
}

/// `Path::file_name`, as text.
pub fn file_name(p: &str) -> (r: Option<String>)
    ensures
        match r {
            Some(s) => file_name_spec(p@) == Some(s@),
            None => file_name_spec(p@) is None,
        },
{
    let c = path_components(p);
    let ghost cv = c@.map_values(|x: Vec<char>| x@);
    let v = crate::text::chars_of(p);
    let abs = v.len() > 0 && v[0] == '/';
    if c.len() == 0 || (c.len() == 1 && abs) {
        None
    } else {
        Some(crate::text::string_of(&c[c.len() - 1]))
    }
}

/// `Path::join`, as text.
pub fn join_path(base: &str, rel: &str) -> (r: String)
    ensures
        r@ == join_path_spec(base@, rel@),
{
    let b = crate::text::chars_of(base);
    let v = crate::text::chars_of(rel);
    if v.len() > 0 && v[0] == '/' {
        return crate::text::to_owned_string(rel);
    }
    let mut r = crate::text::to_owned_string(base);
    if !(b.len() == 0 || b[b.len() - 1] == '/') {
        r.push('/');
    }
    push_str(&mut r, rel);
    r
}

/// `Path::starts_with`.
pub fn path_starts_with(p: &str, base: &str) -> (r: bool)
    ensures
        r == path_starts_with_spec(p@, base@),
{
    let b = path_components(base);
    let c = path_components(p);
    components_prefix(&b, &c)
}

/// `Path`'s `==`.
pub fn path_eq(a: &str, b: &str) -> (r: bool)
    ensures
        r == path_eq_spec(a@, b@),
{
    let x = path_components(a);
    let y = path_components(b);
    let ghost xv = x@.map_values(|s: Vec<char>| s@);
    let ghost yv = y@.map_values(|s: Vec<char>| s@);
    if x.len() != y.len() {
        return false;
    }
    let r = components_prefix(&x, &y);
    proof {
        assert(yv.subrange(0, yv.len() as int) =~= yv);
    }
    r
}

/// `Path`'s `<`.
pub fn path_less(a: &str, b: &str) -> (r: bool)
    ensures
        r == path_lt_spec(a@, b@),
{
    let x = path_components(a);
    let y = path_components(b);
    let ghost xv = x@.map_values(|s: Vec<char>| s@);
    let ghost yv = y@.map_values(|s: Vec<char>| s@);
    let mut i: usize = 0;
    assert(xv.skip(0) =~= xv);
    assert(yv.skip(0) =~= yv);
    while i < x.len() && i < y.len() && chars_equal(&x[i], &y[i])
        invariant
            i <= x.len(),
            i <= y.len(),
            xv == x@.map_values(|s: Vec<char>| s@),
            yv == y@.map_values(|s: Vec<char>| s@),
            components_lt(xv, yv) == components_lt(xv.skip(i as int), yv.skip(i as int)),
        decreases x.len() - i,
    {
        assert(xv.skip(i as int).drop_first() =~= xv.skip(i + 1));
        assert(yv.skip(i as int).drop_first() =~= yv.skip(i + 1));
        assert(xv.skip(i as int)[0] == xv[i as int]);
        assert(yv.skip(i as int)[0] == yv[i as int]);
        proof {
            lemma_text_lt_irreflexive(xv[i as int]);
        }
        i = i + 1;
    }
    if i == x.len() {
        i < y.len()
    } else if i == y.len() {
        false
    } else {
        let a1 = crate::text::string_of(&x[i]);
        let b1 = crate::text::string_of(&y[i]);
        text_less(a1.as_str(), b1.as_str())
    }
}

} // verus!
