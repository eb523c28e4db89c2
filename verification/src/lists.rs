//! Lists of strings used as finite sets: membership, union, intersection and
//! difference, each result free of duplicates.

use vstd::prelude::*;

use crate::text::views;

verus! {

broadcast use vstd::seq_lib::lemma_seq_contains_after_push;

/// The set of strings a list holds.
pub open spec fn set_of(v: Seq<String>) -> Set<Seq<char>> {
    views(v).to_set()
}

/// The list holds no string twice.
pub open spec fn unique(v: Seq<String>) -> bool {
    views(v).no_duplicates()
}

/// `v` holds a string equal to `s`.
pub fn contains_str(v: &Vec<String>, s: &str) -> (r: bool)
    ensures
        r == views(v@).contains(s@),
{
    let mut i: usize = 0;
    while i < v.len()
        invariant
            i <= v.len(),
            forall|j: int| 0 <= j < i ==> v@[j]@ != s@,
        decreases v.len() - i,
    {
        if crate::text::str_eq(v[i].as_str(), s) {
            assert(views(v@)[i as int] == s@);
            return true;
        }
        i = i + 1;
    }
    assert(!views(v@).contains(s@)) by {
        if views(v@).contains(s@) {
            let j = choose|j: int| 0 <= j < views(v@).len() && views(v@)[j] == s@;
            assert(v@[j]@ == s@);
        }
    }
    false
}

/// Adds `s` to `out` unless it is already there.
pub fn push_unique(out: &mut Vec<String>, s: &str)
    requires
        unique(old(out)@),
    ensures
        unique(final(out)@),
        views(final(out)@).to_set() == views(old(out)@).to_set().insert(s@),
        forall|x: Seq<char>| #[trigger]
            views(final(out)@).contains(x) <==> views(old(out)@).contains(x) || x == s@,
{
    let ghost before = views(out@);
    if !contains_str(out, s) {
        out.push(s.to_owned());
        assert(views(out@) =~= before.push(s@));
        assert forall|x: Seq<char>| #[trigger]
            views(out@).contains(x) <==> before.contains(x) || x == s@ by {
            if x == s@ {
                assert(views(out@)[before.len() as int] == x);
            }
        }
    } else {
        assert(before.to_set().insert(s@) =~= before.to_set());
    }
    assert(views(out@).to_set() =~= before.to_set().insert(s@));
}

/// The strings of `v`, each once, in order of first occurrence.
pub fn dedup(v: &Vec<String>) -> (r: Vec<String>)
    ensures
        unique(r@),
        set_of(r@) == set_of(v@),
{
    let mut out: Vec<String> = Vec::new();
    let mut i: usize = 0;
    while i < v.len()
        invariant
            i <= v.len(),
            unique(out@),
            forall|x: Seq<char>| #[trigger]
                views(out@).contains(x) <==> views(v@).take(i as int).contains(x),
        decreases v.len() - i,
    {
        let ghost prev = views(v@).take(i as int);
        push_unique(&mut out, v[i].as_str());
        assert(views(v@).take(i + 1) =~= prev.push(v@[i as int]@));
        i = i + 1;
    }
    assert(views(v@).take(v.len() as int) =~= views(v@));
    assert(set_of(out@) =~= set_of(v@));
    out
}

/// Strings of `a` that are also in `b`.
pub fn intersect(a: &Vec<String>, b: &Vec<String>) -> (r: Vec<String>)
    ensures
        unique(r@),
        set_of(r@) == set_of(a@).intersect(set_of(b@)),
{
    let mut out: Vec<String> = Vec::new();
    let mut i: usize = 0;
    while i < a.len()
        invariant
            i <= a.len(),
            unique(out@),
            forall|x: Seq<char>| #[trigger]
                views(out@).contains(x) <==> views(a@).take(i as int).contains(x) && views(
                    b@,
                ).contains(x),
        decreases a.len() - i,
    {
        let ghost prev = views(a@).take(i as int);
        assert(views(a@).take(i + 1) =~= prev.push(a@[i as int]@));
        if contains_str(b, a[i].as_str()) {
            push_unique(&mut out, a[i].as_str());
        }
        i = i + 1;
    }
    assert(views(a@).take(a.len() as int) =~= views(a@));
    assert(set_of(out@) =~= set_of(a@).intersect(set_of(b@)));
    out
}

/// Strings of `a` or of `b`.
pub fn union(a: &Vec<String>, b: &Vec<String>) -> (r: Vec<String>)
    ensures
        unique(r@),
        set_of(r@) == set_of(a@).union(set_of(b@)),
{
    let mut out = dedup(a);
    assert forall|x: Seq<char>| #[trigger]
        views(out@).contains(x) <==> views(a@).contains(x) || views(b@).take(0).contains(x) by {
        assert(set_of(out@).contains(x) == views(out@).contains(x));
        assert(set_of(a@).contains(x) == views(a@).contains(x));
    }
    let mut i: usize = 0;
    while i < b.len()
        invariant
            i <= b.len(),
            unique(out@),
            forall|x: Seq<char>| #[trigger]
                views(out@).contains(x) <==> views(a@).contains(x) || views(b@).take(
                    i as int,
                ).contains(x),
        decreases b.len() - i,
    {
        let ghost prev = views(b@).take(i as int);
        assert(views(b@).take(i + 1) =~= prev.push(b@[i as int]@));
        push_unique(&mut out, b[i].as_str());
        i = i + 1;
    }
    assert(views(b@).take(b.len() as int) =~= views(b@));
    assert(set_of(out@) =~= set_of(a@).union(set_of(b@)));
    out
}

/// Strings of `a` that are not in `b`.
pub fn difference(a: &Vec<String>, b: &Vec<String>) -> (r: Vec<String>)
    ensures
        unique(r@),
        set_of(r@) == set_of(a@).difference(set_of(b@)),
{
    let mut out: Vec<String> = Vec::new();
    let mut i: usize = 0;
    while i < a.len()
        invariant
            i <= a.len(),
            unique(out@),
            forall|x: Seq<char>| #[trigger]
                views(out@).contains(x) <==> views(a@).take(i as int).contains(x) && !views(
                    b@,
                ).contains(x),
        decreases a.len() - i,
    {
        let ghost prev = views(a@).take(i as int);
        assert(views(a@).take(i + 1) =~= prev.push(a@[i as int]@));
        if !contains_str(b, a[i].as_str()) {
            push_unique(&mut out, a[i].as_str());
        }
        i = i + 1;
    }
    assert(views(a@).take(a.len() as int) =~= views(a@));
    assert(set_of(out@) =~= set_of(a@).difference(set_of(b@)));
    out
}


// ---------------------------------------------------------------------------
// Order
// ---------------------------------------------------------------------------

/// `a` comes before `b` in the order of `String`'s `Ord`: character by
/// character by code point, a proper prefix first.
pub open spec fn lex_lt(a: Seq<char>, b: Seq<char>) -> bool
    decreases a.len(),
{
    if a.len() == 0 {
        b.len() > 0
    } else if b.len() == 0 {
        false
    } else if a[0] != b[0] {
        (a[0] as int) < (b[0] as int)
    } else {
        lex_lt(a.drop_first(), b.drop_first())
    }
}

/// Lemma: nothing comes before itself.
pub proof fn lemma_lex_irreflexive(a: Seq<char>)
    ensures
        !lex_lt(a, a),
    decreases a.len(),
{
    if a.len() > 0 {
        lemma_lex_irreflexive(a.drop_first());
    }
}

/// Lemma: the order is transitive.
pub proof fn lemma_lex_transitive(a: Seq<char>, b: Seq<char>, c: Seq<char>)
    requires
        lex_lt(a, b),
        lex_lt(b, c),
    ensures
        lex_lt(a, c),
    decreases a.len(),
{
    if a.len() > 0 && b.len() > 0 && c.len() > 0 && a[0] == b[0] && b[0] == c[0] {
        lemma_lex_transitive(a.drop_first(), b.drop_first(), c.drop_first());
    }
}

/// Lemma: of two different strings one comes first.
pub proof fn lemma_lex_total(a: Seq<char>, b: Seq<char>)
    requires
        a != b,
    ensures
        lex_lt(a, b) || lex_lt(b, a),
    decreases a.len(),
{
    if a.len() == 0 && b.len() == 0 {
        assert(a =~= b);
    }
    if a.len() > 0 && b.len() > 0 && a[0] == b[0] {
        if a.drop_first() == b.drop_first() {
            assert(a =~= seq![a[0]] + a.drop_first());
            assert(b =~= seq![b[0]] + b.drop_first());
        }
        lemma_lex_total(a.drop_first(), b.drop_first());
    }
}

/// Each string comes before all that follow it (so none is repeated).
pub open spec fn strictly_sorted(s: Seq<Seq<char>>) -> bool {
    forall|i: int, j: int| 0 <= i < j < s.len() ==> lex_lt(s[i], s[j])
}

/// `a` comes before `b` (see [`lex_lt`]).
pub fn lex_lt_exec(a: &str, b: &str) -> (r: bool)
    ensures
        r == lex_lt(a@, b@),
{
    let va = crate::text::chars_of(a);
    let vb = crate::text::chars_of(b);
    let mut k: usize = 0;
    assert(va@.skip(0) =~= va@);
    assert(vb@.skip(0) =~= vb@);
    while k < va.len() && k < vb.len()
        invariant
            k <= va.len(),
            k <= vb.len(),
            lex_lt(a@, b@) == lex_lt(va@.skip(k as int), vb@.skip(k as int)),
            va@ == a@,
            vb@ == b@,
        decreases va.len() - k,
    {
        assert(va@.skip(k as int)[0] == va@[k as int]);
        assert(vb@.skip(k as int)[0] == vb@[k as int]);
        assert(va@.skip(k as int).drop_first() =~= va@.skip(k + 1));
        assert(vb@.skip(k as int).drop_first() =~= vb@.skip(k + 1));
        if va[k] != vb[k] {
            return va[k] < vb[k];
        }
        k = k + 1;
    }
    k == va.len() && k < vb.len()
}

/// Inserts `x` into the sorted list `v` at its place, unless it is there.
pub fn insert_sorted(v: &mut Vec<String>, x: String)
    requires
        strictly_sorted(views(old(v)@)),
    ensures
        strictly_sorted(views(final(v)@)),
        forall|y: Seq<char>| #[trigger]
            views(final(v)@).contains(y) <==> views(old(v)@).contains(y) || y == x@,
{
    let ghost ov = views(v@);
    let mut i: usize = 0;
    while i < v.len() && lex_lt_exec(v[i].as_str(), x.as_str())
        invariant
            i <= v.len(),
            ov == views(v@),
            ov == views(old(v)@),
            strictly_sorted(ov),
            forall|k: int| 0 <= k < i ==> lex_lt(ov[k], x@),
        decreases v.len() - i,
    {
        assert(ov[i as int] == v@[i as int]@);
        i = i + 1;
    }
    if i < v.len() && crate::text::str_eq(v[i].as_str(), x.as_str()) {
        assert(ov[i as int] == x@);
        assert(ov.contains(x@));
        return;
    }
    proof {
        if i < v.len() {
            assert(ov[i as int] == v@[i as int]@);
            lemma_lex_total(ov[i as int], x@);
            assert forall|k: int| i <= k < ov.len() implies lex_lt(x@, ov[k]) by {
                if k > i {
                    lemma_lex_transitive(x@, ov[i as int], ov[k]);
                }
            }
        }
    }
    let ghost xv = x@;
    v.insert(i, x);
    assert(views(v@) =~= ov.insert(i as int, xv));
    assert forall|y: Seq<char>| #[trigger] views(v@).contains(y) <==> ov.contains(y) || y == xv by {
        if views(v@).contains(y) {
            let k = choose|k: int| 0 <= k < views(v@).len() && views(v@)[k] == y;
            if k < i {
                assert(ov[k] == y);
            } else if k > i {
                assert(ov[k - 1] == y);
            }
        }
        if ov.contains(y) {
            let k = choose|k: int| 0 <= k < ov.len() && ov[k] == y;
            if k < i {
                assert(views(v@)[k] == y);
            } else {
                assert(views(v@)[k + 1] == y);
            }
        }
        if y == xv {
            assert(views(v@)[i as int] == y);
        }
    }
}

/// Lemma: what the first `i + 1` elements hold.
pub proof fn lemma_take_contains(s: Seq<Seq<char>>, i: int, x: Seq<char>)
    requires
        0 <= i < s.len(),
    ensures
        s.take(i + 1).contains(x) <==> s.take(i).contains(x) || x == s[i],
{
    let a = s.take(i + 1);
    let b = s.take(i);
    if a.contains(x) {
        let k = choose|k: int| 0 <= k < a.len() && #[trigger] a[k] == x;
        if k < i {
            assert(b[k] == x);
        }
    }
    if b.contains(x) {
        let k = choose|k: int| 0 <= k < b.len() && #[trigger] b[k] == x;
        assert(a[k] == x);
    }
    if x == s[i] {
        assert(a[i] == x);
    }
}

/// Inserts copies of `tags` into the sorted list `r`.
pub fn insert_all(r: &mut Vec<String>, tags: &Vec<String>)
    requires
        strictly_sorted(views(old(r)@)),
    ensures
        strictly_sorted(views(final(r)@)),
        forall|x: Seq<char>| #[trigger] views(final(r)@).contains(x) <==> views(old(r)@).contains(x) || views(tags@).contains(x),
{
    let ghost r0 = views(r@);
    let mut m: usize = 0;
    while m < tags.len()
        invariant
            m <= tags.len(),
            r0 == views(old(r)@),
            strictly_sorted(views(r@)),
            forall|x: Seq<char>| #[trigger] views(r@).contains(x) <==> r0.contains(x) || views(tags@).take(m as int).contains(x),
        decreases tags.len() - m,
    {
        let ghost x0 = tags@[m as int]@;
        insert_sorted(r, crate::text::copy(&tags[m]));
        proof {
            assert(views(tags@)[m as int] == x0);
            assert forall|x: Seq<char>| #[trigger] views(r@).contains(x) <==> r0.contains(x) || views(tags@).take(m + 1).contains(x) by {
                lemma_take_contains(views(tags@), m as int, x);
            }
        }
        m = m + 1;
    }
    assert(views(tags@).take(tags.len() as int) =~= views(tags@));
}

/// The strings of `v` sorted, each once.
pub fn sorted_unique(v: &Vec<String>) -> (r: Vec<String>)
    ensures
        strictly_sorted(views(r@)),
        forall|x: Seq<char>| #[trigger] views(r@).contains(x) <==> views(v@).contains(x),
{
    let mut r: Vec<String> = Vec::new();
    insert_all(&mut r, v);
    r
}

} // verus!
