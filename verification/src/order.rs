//! Stable ordering of lists by a key: the listings put starred entities
//! first and the newest before the oldest, the graph overview orders nodes
//! by kind and title, the tag list goes by lower-case spelling.

use vstd::prelude::*;

use crate::lists::{lemma_lex_irreflexive, lemma_lex_total, lemma_lex_transitive, lex_lt};

verus! {

/// A key by which values are ranked: `ranks_before` is a strict weak
/// order (irreflexive, transitive, and two values that neither ranks
/// before the other rank alike).
pub trait Ranked: Sized {
    /// `self` comes strictly before `other`.
    spec fn ranks_before(self, other: Self) -> bool;

    /// Whether `self` comes strictly before `other`.
    fn before(&self, other: &Self) -> (r: bool)
        ensures
            r == self.ranks_before(*other),
    ;

    /// Nothing comes before itself.
    proof fn lemma_irreflexive(a: Self)
        ensures
            !a.ranks_before(a),
    ;

    /// The order is transitive.
    proof fn lemma_transitive(a: Self, b: Self, c: Self)
        requires
            a.ranks_before(b),
            b.ranks_before(c),
        ensures
            a.ranks_before(c),
    ;

    /// What comes before `c` comes before `b`, or `b` comes before `c`.
    proof fn lemma_negative_transitive(a: Self, b: Self, c: Self)
        requires
            a.ranks_before(c),
        ensures
            a.ranks_before(b) || b.ranks_before(c),
    ;
}

/// Index `i` of `keys` is placed before index `j`: its key ranks first, or
/// the two rank alike and `i` came first (the order is stable).
pub open spec fn index_before<K: Ranked>(keys: Seq<K>, i: int, j: int) -> bool {
    keys[i].ranks_before(keys[j]) || (!keys[j].ranks_before(keys[i]) && i < j)
}

/// `r` lists each index `i` of `keys` with `keep[i]` exactly once, in the
/// stable order of their keys.
pub open spec fn is_ranking<K: Ranked>(keys: Seq<K>, keep: Seq<bool>, r: Seq<usize>) -> bool {
    &&& forall|a: int| 0 <= a < r.len() ==> #[trigger] r[a] < keys.len() && keep[r[a] as int]
    &&& forall|i: int| 0 <= i < keys.len() && keep[i] ==> r.contains(i as usize)
    &&& r.no_duplicates()
    &&& forall|a: int, b: int| 0 <= a < b < r.len() ==> index_before(keys, #[trigger] r[a] as int, #[trigger] r[b] as int)
}

/// `r` lists, once each, the indices below `n` of `keys` whose `keep` is
/// set, in their stable order.
pub open spec fn ranked_upto<K: Ranked>(keys: Seq<K>, keep: Seq<bool>, r: Seq<usize>, n: int) -> bool {
    &&& forall|a: int| 0 <= a < r.len() ==> #[trigger] r[a] < n && keep[r[a] as int]
    &&& forall|k: int| 0 <= k < n && keep[k] ==> r.contains(k as usize)
    &&& r.no_duplicates()
    &&& forall|a: int, b: int| 0 <= a < b < r.len() ==> index_before(keys, #[trigger] r[a] as int, #[trigger] r[b] as int)
}

/// Lemma: inserting a new index keeps each index once and lists the new one.
proof fn lemma_insert_members(old_r: Seq<usize>, p: int, i: usize, keep: Seq<bool>)
    requires
        0 <= p <= old_r.len(),
        i < keep.len(),
        keep[i as int],
        forall|a: int| 0 <= a < old_r.len() ==> #[trigger] old_r[a] < i && keep[old_r[a] as int],
        forall|k: int| 0 <= k < i && keep[k] ==> old_r.contains(k as usize),
        old_r.no_duplicates(),
    ensures
        ({
            let s = old_r.insert(p, i);
            &&& forall|a: int| 0 <= a < s.len() ==> #[trigger] s[a] < i + 1 && keep[s[a] as int]
            &&& forall|k: int| 0 <= k < i + 1 && keep[k] ==> s.contains(k as usize)
            &&& s.no_duplicates()
        }),
{
    let s = old_r.insert(p, i);
    assert forall|a: int| 0 <= a < s.len() implies #[trigger] s[a] < i + 1 && keep[s[a] as int] by {
        if a < p {
            assert(s[a] == old_r[a]);
        } else if a > p {
            assert(s[a] == old_r[a - 1]);
        }
    }
    assert forall|k: int| 0 <= k < i + 1 && keep[k] implies s.contains(k as usize) by {
        if k == i {
            assert(s[p] == i);
        } else {
            assert(old_r.contains(k as usize));
            let a = choose|a: int| 0 <= a < old_r.len() && old_r[a] == k as usize;
            if a < p {
                assert(s[a] == k as usize);
            } else {
                assert(s[a + 1] == k as usize);
            }
        }
    }
    assert forall|a: int, b: int| 0 <= a < s.len() && 0 <= b < s.len() && a != b implies s[a] != s[b] by {
        if a != p && b != p {
            let a0 = if a < p { a } else { a - 1 };
            let b0 = if b < p { b } else { b - 1 };
            assert(s[a] == old_r[a0]);
            assert(s[b] == old_r[b0]);
        } else if a == p {
            let b0 = if b < p { b } else { b - 1 };
            assert(s[b] == old_r[b0]);
        } else {
            let a0 = if a < p { a } else { a - 1 };
            assert(s[a] == old_r[a0]);
        }
    }
}

/// Lemma: what ranks after the key at `p` ranks after a key that comes
/// before it.
proof fn lemma_after_place<K: Ranked>(keys: Seq<K>, old_r: Seq<usize>, p: int, i: int)
    requires
        0 <= p < old_r.len(),
        0 <= i < keys.len(),
        forall|a: int| 0 <= a < old_r.len() ==> #[trigger] old_r[a] < keys.len(),
        forall|a: int, b: int| 0 <= a < b < old_r.len() ==> index_before(keys, #[trigger] old_r[a] as int, #[trigger] old_r[b] as int),
        keys[i].ranks_before(keys[old_r[p] as int]),
    ensures
        forall|b: int| p <= b < old_r.len() ==> keys[i].ranks_before(#[trigger] keys[old_r[b] as int]),
{
    assert forall|b: int| p <= b < old_r.len() implies keys[i].ranks_before(#[trigger] keys[old_r[b] as int]) by {
        if b > p {
            let kp = keys[old_r[p] as int];
            let kb = keys[old_r[b] as int];
            assert(index_before(keys, old_r[p] as int, old_r[b] as int));
            K::lemma_negative_transitive(keys[i], kb, kp);
            if kb.ranks_before(kp) && kp.ranks_before(kb) {
                K::lemma_transitive(kp, kb, kp);
                K::lemma_irreflexive(kp);
            }
        }
    }
}

/// Lemma: inserting index `i` at place `p` keeps the list in order.
proof fn lemma_insert_sorted<K: Ranked>(keys: Seq<K>, old_r: Seq<usize>, p: int, i: usize)
    requires
        0 <= p <= old_r.len(),
        i < keys.len(),
        forall|a: int| 0 <= a < old_r.len() ==> #[trigger] old_r[a] < i,
        forall|a: int, b: int| 0 <= a < b < old_r.len() ==> index_before(keys, #[trigger] old_r[a] as int, #[trigger] old_r[b] as int),
        forall|a: int| 0 <= a < p ==> !keys[i as int].ranks_before(#[trigger] keys[old_r[a] as int]),
        forall|b: int| p <= b < old_r.len() ==> keys[i as int].ranks_before(#[trigger] keys[old_r[b] as int]),
    ensures
        ({
            let s = old_r.insert(p, i);
            forall|a: int, b: int| 0 <= a < b < s.len() ==> index_before(keys, #[trigger] s[a] as int, #[trigger] s[b] as int)
        }),
{
    let s = old_r.insert(p, i);
    assert forall|a: int, b: int| 0 <= a < b < s.len() implies index_before(keys, #[trigger] s[a] as int, #[trigger] s[b] as int) by {
        if b < p {
            assert(s[a] == old_r[a] && s[b] == old_r[b]);
        } else if b == p {
            assert(s[a] == old_r[a]);
            assert(!keys[i as int].ranks_before(keys[old_r[a] as int]));
        } else if a < p {
            assert(s[a] == old_r[a] && s[b] == old_r[b - 1]);
        } else if a == p {
            assert(s[b] == old_r[b - 1]);
            assert(keys[i as int].ranks_before(keys[old_r[b - 1] as int]));
        } else {
            assert(s[a] == old_r[a - 1] && s[b] == old_r[b - 1]);
        }
    }
}

/// Inserts index `i` into the ranked list `r` after every index that does
/// not rank after it.
fn insert_ranked<K: Ranked>(keys: &Vec<K>, keep: &Vec<bool>, r: &mut Vec<usize>, i: usize)
    requires
        i < keys.len(),
        keep.len() == keys.len(),
        keep[i as int],
        ranked_upto(keys@, keep@, old(r)@, i as int),
    ensures
        ranked_upto(keys@, keep@, final(r)@, i + 1),
{
    let mut p: usize = 0;
    while p < r.len() && !keys[i].before(&keys[r[p]])
        invariant
            p <= r.len(),
            i < keys.len(),
            forall|a: int| 0 <= a < r.len() ==> #[trigger] r[a] < i,
            forall|a: int| 0 <= a < p ==> !keys@[i as int].ranks_before(#[trigger] keys@[r[a] as int]),
        decreases r.len() - p,
    {
        p = p + 1;
    }
    let ghost old_r = r@;
    proof {
        if p < old_r.len() {
            lemma_after_place(keys@, old_r, p as int, i as int);
        }
        lemma_insert_members(old_r, p as int, i, keep@);
        lemma_insert_sorted(keys@, old_r, p as int, i);
    }
    r.insert(p, i);
    assert(r@ =~= old_r.insert(p as int, i));
}

/// The indices of `keys` whose `keep` is set, in the stable order of their
/// keys (a stable sort of those indices).
pub fn rank_order<K: Ranked>(keys: &Vec<K>, keep: &Vec<bool>) -> (r: Vec<usize>)
    requires
        keep.len() == keys.len(),
    ensures
        is_ranking(keys@, keep@, r@),
{
    let mut r: Vec<usize> = Vec::new();
    let mut i: usize = 0;
    while i < keys.len()
        invariant
            i <= keys.len(),
            keep.len() == keys.len(),
            ranked_upto(keys@, keep@, r@, i as int),
        decreases keys.len() - i,
    {
        if keep[i] {
            insert_ranked(keys, keep, &mut r, i);
        } else {
            assert(ranked_upto(keys@, keep@, r@, i + 1));
        }
        i = i + 1;
    }
    r
}

/// Lemma: in a ranking, no key ranks before the key of an index placed
/// earlier.
pub proof fn lemma_ranking_sorted<K: Ranked>(keys: Seq<K>, keep: Seq<bool>, r: Seq<usize>, a: int, b: int)
    requires
        is_ranking(keys, keep, r),
        0 <= a < b < r.len(),
    ensures
        !keys[r[b] as int].ranks_before(keys[r[a] as int]),
{
    let ka = keys[r[a] as int];
    let kb = keys[r[b] as int];
    assert(index_before(keys, r[a] as int, r[b] as int));
    if ka.ranks_before(kb) && kb.ranks_before(ka) {
        K::lemma_transitive(ka, kb, ka);
        K::lemma_irreflexive(ka);
    }
}

/// Lemma: a ranking that keeps every index lists as many indices as there
/// are keys.
pub proof fn lemma_ranking_len<K: Ranked>(keys: Seq<K>, keep: Seq<bool>, r: Seq<usize>)
    requires
        is_ranking(keys, keep, r),
        keep.len() == keys.len(),
        keys.len() <= usize::MAX,
        forall|i: int| 0 <= i < keep.len() ==> keep[i],
    ensures
        r.len() == keys.len(),
{
    let n = keys.len();
    let all = Set::new(|i: usize| (i as int) < n);
    let got = r.to_set();
    assert(got =~= all) by {
        assert forall|i: usize| all.contains(i) implies got.contains(i) by {
            assert(keep[i as int]);
            assert(r.contains((i as int) as usize));
        }
        assert forall|i: usize| got.contains(i) implies all.contains(i) by {
            let a = choose|a: int| 0 <= a < r.len() && r[a] == i;
            assert(r[a] < keys.len());
        }
    }
    r.unique_seq_to_set();
    lemma_range_set_len(n);
}

/// Lemma: the indices below `n` are `n` many.
proof fn lemma_range_set_len(n: nat)
    requires
        n <= usize::MAX + 1,
    ensures
        Set::new(|i: usize| (i as int) < n).finite(),
        Set::new(|i: usize| (i as int) < n).len() == n,
    decreases n,
{
    let s = Set::new(|i: usize| (i as int) < n);
    if n == 0 {
        assert(s =~= Set::<usize>::empty());
    } else {
        lemma_range_set_len((n - 1) as nat);
        let t = Set::new(|i: usize| (i as int) < n - 1);
        let x = (n - 1) as usize;
        assert(s =~= t.insert(x));
    }
}

/// Keep every index.
pub fn keep_all(n: usize) -> (r: Vec<bool>)
    ensures
        r.len() == n,
        forall|i: int| 0 <= i < n ==> r[i],
{
    let mut r: Vec<bool> = Vec::new();
    let mut i: usize = 0;
    while i < n
        invariant
            i <= n,
            r.len() == i,
            forall|k: int| 0 <= k < i ==> r[k],
        decreases n - i,
    {
        r.push(true);
        i = i + 1;
    }
    r
}

impl Ranked for String {
    /// The order of `String`'s `Ord`.
    open spec fn ranks_before(self, other: String) -> bool {
        lex_lt(self@, other@)
    }

    fn before(&self, other: &String) -> (r: bool) {
        crate::lists::lex_lt_exec(self.as_str(), other.as_str())
    }

    proof fn lemma_irreflexive(a: String) {
        lemma_lex_irreflexive(a@);
    }

    proof fn lemma_transitive(a: String, b: String, c: String) {
        lemma_lex_transitive(a@, b@, c@);
    }

    proof fn lemma_negative_transitive(a: String, b: String, c: String) {
        if !lex_lt(a@, b@) {
            if a@ == b@ {
            } else {
                lemma_lex_total(a@, b@);
                lemma_lex_transitive(b@, a@, c@);
            }
        }
    }
}

} // verus!
