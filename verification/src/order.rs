//! The order of strings (`str::cmp`): character by character, a proper
//! prefix first. Comparing UTF-8 bytes gives the same order, since the
//! encoding keeps the order of code points.
use crate::text::{chars_of, strings_view};
use vstd::prelude::*;

verus! {

/// `a` comes strictly before `b`.
pub open spec fn text_lt(a: Seq<char>, b: Seq<char>) -> bool
    decreases a.len(),
{
    if a.len() == 0 {
        b.len() > 0
    } else if b.len() == 0 {
        false
    } else if a[0] != b[0] {
        a[0] < b[0]
    } else {
        text_lt(a.drop_first(), b.drop_first())
    }
}

pub proof fn lemma_text_lt_irreflexive(a: Seq<char>)
    ensures
        !text_lt(a, a),
    decreases a.len(),
{
    if a.len() > 0 {
        lemma_text_lt_irreflexive(a.drop_first());
    }
}

pub proof fn lemma_text_lt_transitive(a: Seq<char>, b: Seq<char>, c: Seq<char>)
    requires
        text_lt(a, b),
        text_lt(b, c),
    ensures
        text_lt(a, c),
    decreases a.len(),
{
    if a.len() > 0 && b.len() > 0 && c.len() > 0 {
        if a[0] == b[0] && b[0] == c[0] {
            lemma_text_lt_transitive(a.drop_first(), b.drop_first(), c.drop_first());
        }
    }
}

pub proof fn lemma_text_lt_total(a: Seq<char>, b: Seq<char>)
    requires
        a != b,
    ensures
        text_lt(a, b) || text_lt(b, a),
    decreases a.len(),
{
    if a.len() == 0 || b.len() == 0 {
        if a.len() == 0 && b.len() == 0 {
            assert(a =~= b);
        }
    } else if a[0] != b[0] {

    } else {
        if a.drop_first() =~= b.drop_first() {
            assert forall|k: int| 0 <= k < a.len() implies a[k] == b[k] by {
                if k > 0 {
                    assert(a[k] == a.drop_first()[k - 1]);
                    assert(b[k] == b.drop_first()[k - 1]);
                }
            }
            assert(a =~= b);
        }
        lemma_text_lt_total(a.drop_first(), b.drop_first());
    }
}

pub proof fn lemma_text_lt_asymmetric(a: Seq<char>, b: Seq<char>)
    requires
        text_lt(a, b),
    ensures
        !text_lt(b, a),
{
    if text_lt(b, a) {
        lemma_text_lt_transitive(a, b, a);
        lemma_text_lt_irreflexive(a);
    }
}

/// Whether `a` comes strictly before `b`.
pub fn chars_lt(a: &[char], b: &[char]) -> (r: bool)
    ensures
        r == text_lt(a@, b@),
{
    let mut i: usize = 0;
    proof {
        assert(a@.skip(0) =~= a@);
        assert(b@.skip(0) =~= b@);
    }
    while i < a.len() && i < b.len() && a[i] == b[i]
        invariant
            i <= a.len(),
            i <= b.len(),
            text_lt(a@, b@) == text_lt(a@.skip(i as int), b@.skip(i as int)),
        decreases a.len() - i,
    {
        assert(a@.skip(i as int).drop_first() =~= a@.skip(i + 1));
        assert(b@.skip(i as int).drop_first() =~= b@.skip(i + 1));
        i = i + 1;
    }
    if i == a.len() {
        i < b.len()
    } else if i == b.len() {
        false
    } else {
        assert(a@.skip(i as int)[0] == a@[i as int]);
        assert(b@.skip(i as int)[0] == b@[i as int]);
        a[i] < b[i]
    }
}

/// Whether `a` comes strictly before `b`.
pub fn str_lt(a: &str, b: &str) -> (r: bool)
    ensures
        r == text_lt(a@, b@),
{
    chars_lt(chars_of(a).as_slice(), chars_of(b).as_slice())
}

/// Strictly increasing.
pub open spec fn strictly_sorted(s: Seq<Seq<char>>) -> bool {
    forall|i: int, j: int| 0 <= i < j < s.len() ==> text_lt(#[trigger] s[i], #[trigger] s[j])
}

/// Adds `s` to a strictly increasing list of texts at its place, unless it
/// is there already (`BTreeSet::insert`).
pub fn insert_sorted(r: &mut Vec<String>, s: String)
    requires
        strictly_sorted(strings_view(old(r)@)),
    ensures
        strictly_sorted(strings_view(final(r)@)),
        forall|y: Seq<char>| #[trigger] strings_view(final(r)@).contains(y) <==> (strings_view(old(r)@).contains(y) || y == s@),
{
    let ghost rv = strings_view(r@);
    let ghost x = s@;
    let xs = chars_of(s.as_str());
    // The first place whose text is not below x.
    let mut p: usize = 0;
    while p < r.len() && chars_lt(chars_of(r[p].as_str()).as_slice(), xs.as_slice())
        invariant
            p <= r.len(),
            rv == strings_view(r@),
            xs@ == x,
            forall|k: int| 0 <= k < p ==> text_lt(#[trigger] rv[k], x),
        decreases r.len() - p,
    {
        p = p + 1;
    }
    let present = p < r.len() && crate::json::str_eq(r[p].as_str(), s.as_str());
    if present {
        proof {
            assert(rv[p as int] == x);
        }
        return;
    }
    proof {
        if p < r.len() {
            assert(rv[p as int] != x);
            assert(!text_lt(rv[p as int], x));
            lemma_text_lt_total(rv[p as int], x);
        }
    }
    r.insert(p, s);
    proof {
        let nv = strings_view(r@);
        assert(nv =~= rv.insert(p as int, x));
        assert forall|a: int, b: int| 0 <= a < b < nv.len() implies text_lt(#[trigger] nv[a], #[trigger] nv[b]) by {
            if b < p {
                assert(nv[a] == rv[a] && nv[b] == rv[b]);
            } else if b == p {
                assert(nv[a] == rv[a]);
            } else if a < p {
                assert(nv[a] == rv[a] && nv[b] == rv[b - 1]);
                assert(text_lt(rv[a], x));
                assert(text_lt(x, rv[p as int]));
                if b - 1 > p {
                    lemma_text_lt_transitive(x, rv[p as int], rv[b - 1]);
                }
                lemma_text_lt_transitive(rv[a], x, rv[b - 1]);
            } else if a == p {
                assert(nv[b] == rv[b - 1]);
                if b - 1 > p {
                    lemma_text_lt_transitive(x, rv[p as int], rv[b - 1]);
                }
            } else {
                assert(nv[a] == rv[a - 1] && nv[b] == rv[b - 1]);
            }
        }
        assert forall|y: Seq<char>| #[trigger] nv.contains(y) <==> (rv.contains(y) || y == x) by {
            if nv.contains(y) {
                let k = choose|k: int| 0 <= k < nv.len() && nv[k] == y;
                if k < p {
                    assert(rv[k] == y);
                } else if k > p {
                    assert(rv[k - 1] == y);
                }
            }
            if rv.contains(y) {
                let k = choose|k: int| 0 <= k < rv.len() && rv[k] == y;
                if k < p {
                    assert(nv[k] == y);
                } else {
                    assert(nv[k + 1] == y);
                }
            }
            assert(nv[p as int] == x);
        }
    }
}

/// The distinct texts of `v`, in increasing order.
pub fn sorted_distinct(v: &Vec<String>) -> (r: Vec<String>)
    ensures
        strictly_sorted(strings_view(r@)),
        forall|x: Seq<char>| strings_view(r@).contains(x) <==> strings_view(v@).contains(x),
{
    let mut r: Vec<String> = Vec::new();
    let mut i: usize = 0;
    assert(strings_view(r@) =~= Seq::<Seq<char>>::empty());
    while i < v.len()
        invariant
            i <= v.len(),
            strictly_sorted(strings_view(r@)),
            forall|x: Seq<char>| strings_view(r@).contains(x) <==> strings_view(v@).subrange(0, i as int).contains(x),
        decreases v.len() - i,
    {
        let ghost rv = strings_view(r@);
        let ghost x = v@[i as int]@;
        insert_sorted(&mut r, v[i].clone());
        proof {
            let nv = strings_view(r@);
            let old_part = strings_view(v@).subrange(0, i as int);
            let new_part = strings_view(v@).subrange(0, i + 1);
            assert(new_part =~= old_part.push(x));
            assert forall|y: Seq<char>| nv.contains(y) <==> new_part.contains(y) by {
                assert(nv.contains(y) <==> (rv.contains(y) || y == x));
                if new_part.contains(y) {
                    let k = choose|k: int| 0 <= k < new_part.len() && new_part[k] == y;
                    if k < i {
                        assert(old_part[k] == y);
                    }
                }
                if old_part.contains(y) {
                    let k = choose|k: int| 0 <= k < old_part.len() && old_part[k] == y;
                    assert(new_part[k] == y);
                }
                assert(new_part[i as int] == x);
            }
        }
        i = i + 1;
    }
    assert(strings_view(v@).subrange(0, v.len() as int) == strings_view(v@));
    r
}


/// The positions of `v` in the order of their texts; equal texts keep their
/// order (a stable sort by text).
pub fn text_order(v: &Vec<String>) -> (order: Vec<usize>)
    ensures
        order@.len() == v@.len(),
        order@.no_duplicates(),
        forall|k: int| 0 <= k < order@.len() ==> #[trigger] order@[k] < v@.len(),
        forall|j: usize| j < v@.len() ==> #[trigger] order@.contains(j),
        forall|a: int, b: int|
            0 <= a < b < order@.len() ==> !text_lt(
                #[trigger] v@[order@[b] as int]@,
                #[trigger] v@[order@[a] as int]@,
            ),
        forall|a: int, b: int|
            0 <= a < b < order@.len() && v@[order@[a] as int]@ == v@[order@[b] as int]@ ==> #[trigger] order@[a]
                < #[trigger] order@[b],
{
    let n = v.len();
    let mut order: Vec<usize> = Vec::new();
    let mut i: usize = 0;
    while i < n
        invariant
            n == v@.len(),
            i <= n,
            order@.len() == i,
            order@.no_duplicates(),
            forall|k: int| 0 <= k < order@.len() ==> order@[k] < i,
            forall|j: usize| j < i ==> #[trigger] order@.contains(j),
            forall|a: int, b: int|
                0 <= a < b < order@.len() ==> !text_lt(v@[order@[b] as int]@, v@[order@[a] as int]@),
            forall|a: int, b: int|
                0 <= a < b < order@.len() && v@[order@[a] as int]@ == v@[order@[b] as int]@ ==> order@[a]
                    < order@[b],
        decreases n - i,
    {
        let ghost x = v@[i as int]@;
        let mut p: usize = 0;
        while p < order.len() && !str_lt(v[i].as_str(), v[order[p]].as_str())
            invariant
                n == v@.len(),
                i < n,
                x == v@[i as int]@,
                p <= order@.len(),
                forall|k: int| 0 <= k < order@.len() ==> order@[k] < i,
                forall|q: int| 0 <= q < p ==> !text_lt(x, v@[order@[q] as int]@),
            decreases order@.len() - p,
        {
            p = p + 1;
        }
        let ghost before = order@;
        order.insert(p, i);
        proof {
            assert(order@ =~= before.insert(p as int, i));
            assert forall|j: usize| j < i + 1 implies #[trigger] order@.contains(j) by {
                if j == i {
                    assert(order@[p as int] == i);
                } else {
                    assert(before.contains(j));
                    let q = choose|q: int| 0 <= q < before.len() && before[q] == j;
                    if q < p {
                        assert(order@[q] == j);
                    } else {
                        assert(order@[q + 1] == j);
                    }
                }
            }
            assert forall|a: int, b: int| 0 <= a < b < order@.len() implies order@[a] != order@[b]
                && !text_lt(v@[order@[b] as int]@, v@[order@[a] as int]@) && (v@[order@[a] as int]@
                == v@[order@[b] as int]@ ==> order@[a] < order@[b]) by {
                if a == p {
                    assert(order@[b] == before[b - 1]);
                    let y = v@[before[p as int] as int]@;
                    let z = v@[before[b - 1] as int]@;
                    assert(text_lt(x, y));
                    if b - 1 > p {
                        if y != z {
                            lemma_text_lt_total(y, z);
                            lemma_text_lt_transitive(x, y, z);
                        }
                    }
                    lemma_text_lt_asymmetric(x, z);
                    lemma_text_lt_irreflexive(x);
                } else if b == p {
                    assert(order@[a] == before[a]);
                } else {
                    let aa = if a < p { a } else { a - 1 };
                    let bb = if b < p { b } else { b - 1 };
                    assert(order@[a] == before[aa] && order@[b] == before[bb]);
                }
            }
        }
        i = i + 1;
    }
    order
}

} // verus!
