//! Sorted, duplicate-free string lists: the order in which merged allowlist
//! fields are kept, and the union that builds them.
use vstd::prelude::*;

use crate::text::{chars_of, views};

verus! {

// ---------------------------------------------------------------------------
// The order of strings
// ---------------------------------------------------------------------------

/// Lexicographic order by code point, the order in which `Ord` on `String`
/// sorts (UTF-8 byte order and code point order agree).
pub open spec fn lex_lt(a: Seq<char>, b: Seq<char>) -> bool
    decreases a.len(),
{
    if a.len() == 0 {
        b.len() > 0
    } else if b.len() == 0 {
        false
    } else if a[0] != b[0] {
        a[0] < b[0]
    } else {
        lex_lt(a.drop_first(), b.drop_first())
    }
}

/// No string precedes itself.
pub proof fn lemma_lex_irreflexive(a: Seq<char>)
    ensures
        !lex_lt(a, a),
    decreases a.len(),
{
    if a.len() > 0 {
        lemma_lex_irreflexive(a.drop_first());
    }
}

/// The order is transitive.
pub proof fn lemma_lex_transitive(a: Seq<char>, b: Seq<char>, c: Seq<char>)
    requires
        lex_lt(a, b),
        lex_lt(b, c),
    ensures
        lex_lt(a, c),
    decreases a.len(),
{
    if a.len() > 0 && b.len() > 0 && c.len() > 0 {
        if a[0] == b[0] && b[0] == c[0] {
            lemma_lex_transitive(a.drop_first(), b.drop_first(), c.drop_first());
        }
    }
}

/// Of two different strings, one precedes the other.
pub proof fn lemma_lex_total(a: Seq<char>, b: Seq<char>)
    ensures
        a == b || lex_lt(a, b) || lex_lt(b, a),
    decreases a.len(),
{
    if a.len() > 0 && b.len() > 0 {
        if a[0] == b[0] {
            lemma_lex_total(a.drop_first(), b.drop_first());
            if a.drop_first() == b.drop_first() {
                assert(a =~= seq![a[0]] + a.drop_first());
                assert(b =~= seq![b[0]] + b.drop_first());
            }
        }
    } else if a.len() == 0 && b.len() == 0 {
        assert(a =~= b);
    }
}

/// No two strings precede each other.
pub proof fn lemma_lex_asymmetric(a: Seq<char>, b: Seq<char>)
    ensures
        !(lex_lt(a, b) && lex_lt(b, a)),
{
    if lex_lt(a, b) && lex_lt(b, a) {
        lemma_lex_transitive(a, b, a);
        lemma_lex_irreflexive(a);
    }
}

/// Whether `a` precedes `b`.
pub fn lex_less(a: &Vec<char>, b: &Vec<char>) -> (r: bool)
    ensures
        r == lex_lt(a@, b@),
{
    let mut i: usize = 0;
    assert(a@.skip(0) =~= a@);
    assert(b@.skip(0) =~= b@);
    while i < a.len() && i < b.len() && a[i] == b[i]
        invariant
            i <= a@.len(),
            i <= b@.len(),
            lex_lt(a@, b@) == lex_lt(a@.skip(i as int), b@.skip(i as int)),
        decreases a@.len() - i,
    {
        assert(a@.skip(i as int).drop_first() =~= a@.skip(i + 1));
        assert(b@.skip(i as int).drop_first() =~= b@.skip(i + 1));
        i = i + 1;
    }
    if i == a.len() {
        i < b.len()
    } else if i == b.len() {
        false
    } else {
        a[i] < b[i]
    }
}

// ---------------------------------------------------------------------------
// Strictly sorted lists
// ---------------------------------------------------------------------------

/// Each string precedes every later one: sorted, with no string twice.
pub open spec fn strictly_sorted(s: Seq<Seq<char>>) -> bool {
    forall|i: int, j: int| 0 <= i < j < s.len() ==> lex_lt(#[trigger] s[i], #[trigger] s[j])
}

/// A strictly sorted list is the only one that holds its strings: two
/// strictly sorted lists of the same strings are equal.
pub proof fn lemma_sorted_unique(r1: Seq<Seq<char>>, r2: Seq<Seq<char>>)
    requires
        strictly_sorted(r1),
        strictly_sorted(r2),
        r1.to_set() == r2.to_set(),
    ensures
        r1 == r2,
    decreases r1.len() + r2.len(),
{
    if r1.len() == 0 || r2.len() == 0 {
        if r1.len() > 0 {
            assert(r1.to_set().contains(r1[0]));
        }
        if r2.len() > 0 {
            assert(r2.to_set().contains(r2[0]));
        }
        assert(r1 =~= r2);
    } else {
        let x = r1[0];
        let y = r2[0];
        assert(r1.to_set().contains(x));
        assert(r2.to_set().contains(y));
        let k = choose|k: int| 0 <= k < r2.len() && r2[k] == x;
        let j = choose|j: int| 0 <= j < r1.len() && r1[j] == y;
        if x != y {
            assert(k > 0 && j > 0);
            assert(lex_lt(r2[0], r2[k]));
            assert(lex_lt(r1[0], r1[j]));
            lemma_lex_asymmetric(x, y);
        }
        let t1 = r1.drop_first();
        let t2 = r2.drop_first();
        assert forall|i: int, l: int| 0 <= i < l < t1.len() implies lex_lt(
            #[trigger] t1[i],
            #[trigger] t1[l],
        ) by {
            assert(t1[i] == r1[i + 1] && t1[l] == r1[l + 1]);
        }
        assert forall|i: int, l: int| 0 <= i < l < t2.len() implies lex_lt(
            #[trigger] t2[i],
            #[trigger] t2[l],
        ) by {
            assert(t2[i] == r2[i + 1] && t2[l] == r2[l + 1]);
        }
        assert forall|z: Seq<char>| t1.to_set().contains(z) <==> t2.to_set().contains(z) by {
            if t1.to_set().contains(z) {
                let a = choose|a: int| 0 <= a < t1.len() && t1[a] == z;
                assert(r1[a + 1] == z);
                assert(lex_lt(r1[0], r1[a + 1]));
                lemma_lex_irreflexive(z);
                assert(r1.to_set().contains(z));
                let b = choose|b: int| 0 <= b < r2.len() && r2[b] == z;
                assert(b != 0);
                assert(t2[b - 1] == z);
            }
            if t2.to_set().contains(z) {
                let a = choose|a: int| 0 <= a < t2.len() && t2[a] == z;
                assert(r2[a + 1] == z);
                assert(lex_lt(r2[0], r2[a + 1]));
                lemma_lex_irreflexive(z);
                assert(r2.to_set().contains(z));
                let b = choose|b: int| 0 <= b < r1.len() && r1[b] == z;
                assert(b != 0);
                assert(t1[b - 1] == z);
            }
        }
        assert(t1.to_set() =~= t2.to_set());
        lemma_sorted_unique(t1, t2);
        assert(r1 =~= seq![x] + t1);
        assert(r2 =~= seq![y] + t2);
    }
}

/// The strictly sorted list of the strings of `s`.
pub open spec fn sorted_list(s: Set<Seq<char>>) -> Seq<Seq<char>> {
    choose|r: Seq<Seq<char>>| strictly_sorted(r) && r.to_set() == s
}

/// A strictly sorted list is the sorted list of its strings.
pub proof fn lemma_sorted_list(r: Seq<Seq<char>>)
    requires
        strictly_sorted(r),
    ensures
        sorted_list(r.to_set()) == r,
{
    let s = r.to_set();
    assert(strictly_sorted(r) && r.to_set() == s);
    let q = sorted_list(s);
    lemma_sorted_unique(q, r);
}

/// `x` put in its place in the strictly sorted list `r`, unless it is there.
pub open spec fn sorted_insert(r: Seq<Seq<char>>, x: Seq<char>) -> Seq<Seq<char>>
    decreases r.len(),
{
    if r.len() == 0 {
        seq![x]
    } else if r[0] == x {
        r
    } else if lex_lt(x, r[0]) {
        seq![x] + r
    } else {
        seq![r[0]] + sorted_insert(r.drop_first(), x)
    }
}

proof fn lemma_sorted_insert(r: Seq<Seq<char>>, x: Seq<char>)
    requires
        strictly_sorted(r),
    ensures
        strictly_sorted(sorted_insert(r, x)),
        sorted_insert(r, x).to_set() == r.to_set().insert(x),
    decreases r.len(),
{
    let q = sorted_insert(r, x);
    if r.len() == 0 {
        assert(q.to_set() =~= r.to_set().insert(x)) by {
            assert(q[0] == x);
        }
    } else if r[0] == x {
        assert(r.to_set().contains(r[0]));
        assert(q.to_set() =~= r.to_set().insert(x));
    } else if lex_lt(x, r[0]) {
        assert forall|i: int, j: int| 0 <= i < j < q.len() implies lex_lt(
            #[trigger] q[i],
            #[trigger] q[j],
        ) by {
            if i == 0 {
                assert(q[j] == r[j - 1]);
                if j > 1 {
                    assert(lex_lt(r[0], r[j - 1]));
                    lemma_lex_transitive(x, r[0], r[j - 1]);
                }
            } else {
                assert(q[i] == r[i - 1] && q[j] == r[j - 1]);
            }
        }
        assert forall|z: Seq<char>| q.to_set().contains(z) <==> r.to_set().insert(x).contains(z) by {
            if q.to_set().contains(z) {
                let i = choose|i: int| 0 <= i < q.len() && q[i] == z;
                if i > 0 {
                    assert(r[i - 1] == z);
                }
            }
            if r.to_set().contains(z) {
                let i = choose|i: int| 0 <= i < r.len() && r[i] == z;
                assert(q[i + 1] == z);
            }
            if z == x {
                assert(q[0] == z);
            }
        }
        assert(q.to_set() =~= r.to_set().insert(x));
    } else {
        let t = r.drop_first();
        assert forall|i: int, j: int| 0 <= i < j < t.len() implies lex_lt(
            #[trigger] t[i],
            #[trigger] t[j],
        ) by {
            assert(t[i] == r[i + 1] && t[j] == r[j + 1]);
        }
        lemma_sorted_insert(t, x);
        let qt = sorted_insert(t, x);
        lemma_lex_total(x, r[0]);
        assert(q =~= seq![r[0]] + qt);
        assert forall|i: int, j: int| 0 <= i < j < q.len() implies lex_lt(
            #[trigger] q[i],
            #[trigger] q[j],
        ) by {
            if i == 0 {
                assert(q[j] == qt[j - 1]);
                assert(qt.to_set().contains(qt[j - 1]));
                if qt[j - 1] != x {
                    assert(t.to_set().contains(qt[j - 1]));
                    let k = choose|k: int| 0 <= k < t.len() && t[k] == qt[j - 1];
                    assert(r[k + 1] == qt[j - 1]);
                }
            } else {
                assert(q[i] == qt[i - 1] && q[j] == qt[j - 1]);
            }
        }
        assert forall|z: Seq<char>| q.to_set().contains(z) <==> r.to_set().insert(x).contains(z) by {
            if q.to_set().contains(z) {
                let i = choose|i: int| 0 <= i < q.len() && q[i] == z;
                if i > 0 {
                    assert(qt[i - 1] == z);
                    assert(qt.to_set().contains(z));
                    if z != x {
                        let k = choose|k: int| 0 <= k < t.len() && t[k] == z;
                        assert(r[k + 1] == z);
                    }
                }
            }
            if r.to_set().contains(z) {
                let i = choose|i: int| 0 <= i < r.len() && r[i] == z;
                if i == 0 {
                    assert(q[0] == z);
                } else {
                    assert(t[i - 1] == z);
                    assert(t.to_set().contains(z));
                    assert(qt.to_set().contains(z));
                    let k = choose|k: int| 0 <= k < qt.len() && qt[k] == z;
                    assert(q[k + 1] == z);
                }
            }
            if z == x {
                assert(qt.to_set().contains(z));
                let k = choose|k: int| 0 <= k < qt.len() && qt[k] == z;
                assert(q[k + 1] == z);
            }
        }
        assert(q.to_set() =~= r.to_set().insert(x));
    }
}

/// Every list of strings has a strictly sorted list of the same strings.
pub proof fn lemma_sorted_exists(a: Seq<Seq<char>>)
    ensures
        strictly_sorted(sorted_list(a.to_set())),
        sorted_list(a.to_set()).to_set() == a.to_set(),
    decreases a.len(),
{
    if a.len() == 0 {
        let e: Seq<Seq<char>> = Seq::empty();
        assert(e.to_set() =~= a.to_set());
        lemma_sorted_list(e);
    } else {
        let init = a.drop_last();
        lemma_sorted_exists(init);
        let r0 = sorted_list(init.to_set());
        lemma_sorted_insert(r0, a.last());
        let r = sorted_insert(r0, a.last());
        assert(a =~= init.push(a.last()));
        init.lemma_push_to_set_commute(a.last());
        assert(r.to_set() == a.to_set());
        lemma_sorted_list(r);
    }
}

/// The sorted union holds exactly the strings of the two lists.
pub proof fn lemma_sorted_union(a: Seq<Seq<char>>, b: Seq<Seq<char>>)
    ensures
        strictly_sorted(sorted_union(a, b)),
        sorted_union(a, b).to_set() == a.to_set() + b.to_set(),
{
    vstd::seq_lib::seq_to_set_distributes_over_add(a, b);
    lemma_sorted_exists(a + b);
}

/// The sorted, duplicate-free union of two string lists.
pub open spec fn sorted_union(a: Seq<Seq<char>>, b: Seq<Seq<char>>) -> Seq<Seq<char>> {
    sorted_list(a.to_set() + b.to_set())
}

/// Inserts `x` into a strictly sorted list, unless it is there already.
fn insert_sorted(r: &mut Vec<String>, x: &String)
    requires
        strictly_sorted(views(old(r)@)),
    ensures
        strictly_sorted(views(final(r)@)),
        views(final(r)@).to_set() == views(old(r)@).to_set().insert(x@),
{
    let xv = chars_of(x.as_str());
    let n = r.len();
    let ghost rv = views(r@);
    let mut i: usize = 0;
    let mut stop = false;
    while i < n && !stop
        invariant
            n == r@.len(),
            rv == views(r@),
            xv@ == x@,
            i <= n,
            forall|k: int| 0 <= k < i ==> lex_lt(#[trigger] rv[k], x@),
            stop ==> i < n && !lex_lt(rv[i as int], x@),
        decreases n - i, (if stop { 0int } else { 1int }),
    {
        let ri = chars_of(r[i].as_str());
        if !lex_less(&ri, &xv) {
            stop = true;
        } else {
            i = i + 1;
        }
    }
    if i < n {
        let ri = chars_of(r[i].as_str());
        if lex_less(&xv, &ri) == false {
            proof {
                lemma_lex_total(rv[i as int], x@);
            }
            assert(rv[i as int] == x@);
            assert(rv.to_set().insert(x@) =~= rv.to_set()) by {
                assert(rv.to_set().contains(rv[i as int]));
            }
            return;
        }
    }
    proof {
        if i < n {
            assert forall|k: int| i <= k < n implies lex_lt(x@, #[trigger] rv[k]) by {
                if k > i {
                    assert(lex_lt(rv[i as int], rv[k]));
                    lemma_lex_transitive(x@, rv[i as int], rv[k]);
                }
            }
        }
    }
    r.insert(i, x.clone());
    let ghost nv = views(r@);
    assert(nv =~= rv.insert(i as int, x@));
    assert forall|a: int, b: int| 0 <= a < b < nv.len() implies lex_lt(
        #[trigger] nv[a],
        #[trigger] nv[b],
    ) by {
        if b < i {
        } else if a < i && b == i {
        } else if a < i && b > i {
            assert(nv[b] == rv[b - 1]);
            if i < n {
                assert(lex_lt(x@, rv[b - 1]));
            }
            lemma_lex_transitive(nv[a], x@, nv[b]);
        } else if a == i {
            assert(nv[b] == rv[b - 1]);
        } else {
            assert(nv[a] == rv[a - 1] && nv[b] == rv[b - 1]);
        }
    }
    assert forall|z: Seq<char>| nv.to_set().contains(z) <==> rv.to_set().insert(x@).contains(
        z,
    ) by {
        if nv.to_set().contains(z) {
            let a = choose|a: int| 0 <= a < nv.len() && nv[a] == z;
            if a < i {
                assert(rv[a] == z);
            } else if a > i {
                assert(rv[a - 1] == z);
            }
        }
        if rv.to_set().contains(z) {
            let a = choose|a: int| 0 <= a < rv.len() && rv[a] == z;
            if a < i {
                assert(nv[a] == z);
            } else {
                assert(nv[a + 1] == z);
            }
        }
        if z == x@ {
            assert(nv[i as int] == z);
        }
    }
    assert(nv.to_set() =~= rv.to_set().insert(x@));
}

/// The strings of `a` and `b`, each once, sorted.
pub fn union(a: &Vec<String>, b: &Vec<String>) -> (r: Vec<String>)
    ensures
        strictly_sorted(views(r@)),
        views(r@).to_set() == views(a@).to_set() + views(b@).to_set(),
        views(r@) == sorted_union(views(a@), views(b@)),
{
    let mut r: Vec<String> = Vec::new();
    assert(views(r@).to_set() =~= Set::<Seq<char>>::empty());
    for i in 0..a.len()
        invariant
            strictly_sorted(views(r@)),
            views(r@).to_set() == views(a@).take(i as int).to_set(),
    {
        insert_sorted(&mut r, &a[i]);
        assert(views(a@).take(i + 1) =~= views(a@).take(i as int).push(a@[i as int]@));
        proof {
            views(a@).take(i as int).lemma_push_to_set_commute(a@[i as int]@);
        }
    }
    assert(views(a@).take(a@.len() as int) =~= views(a@));
    for i in 0..b.len()
        invariant
            strictly_sorted(views(r@)),
            views(r@).to_set() == views(a@).to_set() + views(b@).take(i as int).to_set(),
    {
        insert_sorted(&mut r, &b[i]);
        assert(views(b@).take(i + 1) =~= views(b@).take(i as int).push(b@[i as int]@));
        proof {
            views(b@).take(i as int).lemma_push_to_set_commute(b@[i as int]@);
        }
        assert(views(r@).to_set() =~= views(a@).to_set() + views(b@).take(i + 1).to_set());
    }
    assert(views(b@).take(b@.len() as int) =~= views(b@));
    proof {
        lemma_sorted_list(views(r@));
    }
    r
}

} // verus!
