//! Sorted lists of strings: what it means for a list to be in ascending
//! order, and the one ascending list that holds a given finite set.
use crate::text::{
    compare_chars,
    lemma_less_irreflexive,
    lemma_less_total,
    lemma_less_transitive,
    seq_le,
    seq_less,
    Order,
};
use vstd::prelude::*;

verus! {

/// Every string of `s` comes strictly before the ones after it.
pub open spec fn strictly_sorted(s: Seq<Seq<char>>) -> bool {
    forall|i: int, j: int| 0 <= i < j < s.len() ==> seq_less(#[trigger] s[i], #[trigger] s[j])
}

/// Every string of `s` comes before or equals the ones after it.
pub open spec fn sorted(s: Seq<Seq<char>>) -> bool {
    forall|i: int, j: int| 0 <= i < j < s.len() ==> seq_le(#[trigger] s[i], #[trigger] s[j])
}

/// The strings of a finite set in ascending order, each once.
pub open spec fn ascending(set: Set<Seq<char>>) -> Seq<Seq<char>> {
    choose|s: Seq<Seq<char>>| strictly_sorted(s) && s.to_set() == set
}

/// Two strictly ascending lists with the same elements are the same list.
pub proof fn lemma_strictly_sorted_unique(a: Seq<Seq<char>>, b: Seq<Seq<char>>)
    requires
        strictly_sorted(a),
        strictly_sorted(b),
        a.to_set() == b.to_set(),
    ensures
        a == b,
    decreases a.len(),
{
    if a.len() == 0 {
        if b.len() > 0 {
            assert(b.to_set().contains(b[0]));
            assert(!a.to_set().contains(b[0]));
        }
        assert(a =~= b);
    } else {
        assert(a.to_set().contains(a[0]));
        assert(b.to_set().contains(a[0]));
        let j: int = choose|j: int| 0 <= j < b.len() && b[j] == a[0];
        assert(b.to_set().contains(b[0]));
        assert(a.to_set().contains(b[0]));
        let i: int = choose|i: int| 0 <= i < a.len() && a[i] == b[0];
        if j > 0 {
            assert(seq_less(b[0], b[j]));
            if i > 0 {
                assert(seq_less(a[0], a[i]));
                lemma_less_transitive(b[0], a[0], b[0]);
            }
            lemma_less_irreflexive(b[0]);
        }
        assert(a[0] == b[0]);
        let a1 = a.drop_first();
        let b1 = b.drop_first();
        assert forall|x: Seq<char>| a1.to_set().contains(x) implies b1.to_set().contains(x) by {
            let k: int = choose|k: int| 0 <= k < a1.len() && a1[k] == x;
            assert(a[k + 1] == x);
            assert(seq_less(a[0], x));
            assert(b.to_set().contains(x));
            let m: int = choose|m: int| 0 <= m < b.len() && b[m] == x;
            if m == 0 {
                lemma_less_irreflexive(x);
            }
            assert(b1[m - 1] == x);
        }
        assert forall|x: Seq<char>| b1.to_set().contains(x) implies a1.to_set().contains(x) by {
            let k: int = choose|k: int| 0 <= k < b1.len() && b1[k] == x;
            assert(b[k + 1] == x);
            assert(seq_less(b[0], x));
            assert(a.to_set().contains(x));
            let m: int = choose|m: int| 0 <= m < a.len() && a[m] == x;
            if m == 0 {
                lemma_less_irreflexive(x);
            }
            assert(a1[m - 1] == x);
        }
        assert(a1.to_set() =~= b1.to_set());
        lemma_strictly_sorted_unique(a1, b1);
        assert(a =~= seq![a[0]] + a1);
        assert(b =~= seq![b[0]] + b1);
    }
}

/// A strictly ascending list is the ascending list of its own elements.
pub proof fn lemma_ascending_of_sorted(s: Seq<Seq<char>>)
    requires
        strictly_sorted(s),
    ensures
        ascending(s.to_set()) == s,
{
    let t = ascending(s.to_set());
    assert(strictly_sorted(t) && t.to_set() == s.to_set());
    lemma_strictly_sorted_unique(t, s);
}

/// A strictly ascending list holds no string twice.
pub proof fn lemma_strictly_sorted_no_duplicates(s: Seq<Seq<char>>)
    requires
        strictly_sorted(s),
    ensures
        s.no_duplicates(),
{
    assert forall|i: int, j: int| 0 <= i < s.len() && 0 <= j < s.len() && i != j implies s[i]
        != s[j] by {
        if i < j {
            assert(seq_less(s[i], s[j]));
        } else {
            assert(seq_less(s[j], s[i]));
        }
        lemma_less_irreflexive(s[i]);
    }
}

/// A list each of whose strings comes strictly before the next one is
/// strictly ascending.
pub proof fn lemma_sorted_by_neighbours(s: Seq<Seq<char>>)
    requires
        forall|i: int| 0 <= i < s.len() - 1 ==> seq_less(#[trigger] s[i], s[i + 1]),
    ensures
        strictly_sorted(s),
    decreases s.len(),
{
    if s.len() > 1 {
        let t = s.drop_last();
        assert forall|i: int| 0 <= i < t.len() - 1 implies seq_less(#[trigger] t[i], t[i + 1]) by {
            assert(t[i] == s[i] && t[i + 1] == s[i + 1]);
        }
        lemma_sorted_by_neighbours(t);
        assert forall|i: int, j: int| 0 <= i < j < s.len() implies seq_less(
            #[trigger] s[i],
            #[trigger] s[j],
        ) by {
            if j < s.len() - 1 {
                assert(t[i] == s[i] && t[j] == s[j]);
            } else if i < j - 1 {
                assert(t[i] == s[i] && t[j - 1] == s[j - 1]);
                assert(seq_less(s[j - 1], s[j]));
                lemma_less_transitive(s[i], s[j - 1], s[j]);
            }
        }
    }
}

proof fn lemma_le_antisymmetric(x: Seq<char>, y: Seq<char>)
    requires
        seq_le(x, y),
        seq_le(y, x),
    ensures
        x == y,
{
    lemma_less_total(x, y);
}

/// Two ascending arrangements of the same strings are the same list, so a
/// sorted result with the right elements leaves nothing open.
pub proof fn law_sorted_arrangement_unique(a: Seq<Seq<char>>, b: Seq<Seq<char>>)
    requires
        sorted(a),
        sorted(b),
        a.to_multiset() == b.to_multiset(),
    ensures
        a == b,
    decreases a.len(),
{
    vstd::seq_lib::to_multiset_len(a);
    vstd::seq_lib::to_multiset_len(b);
    if a.len() == 0 {
        assert(a =~= b);
    } else {
        vstd::seq_lib::to_multiset_contains(a, a[0]);
        vstd::seq_lib::to_multiset_contains(b, a[0]);
        vstd::seq_lib::to_multiset_contains(a, b[0]);
        vstd::seq_lib::to_multiset_contains(b, b[0]);
        assert(a.contains(a[0]));
        assert(b.contains(b[0]));
        let j: int = choose|j: int| 0 <= j < b.len() && b[j] == a[0];
        let i: int = choose|i: int| 0 <= i < a.len() && a[i] == b[0];
        if i > 0 {
            assert(seq_le(a[0], a[i]));
        }
        if j > 0 {
            assert(seq_le(b[0], b[j]));
        }
        lemma_le_antisymmetric(a[0], b[0]);
        vstd::seq_lib::to_multiset_remove(a, 0);
        vstd::seq_lib::to_multiset_remove(b, 0);
        assert(a.remove(0) =~= a.drop_first());
        assert(b.remove(0) =~= b.drop_first());
        let a1 = a.drop_first();
        let b1 = b.drop_first();
        assert forall|p: int, q: int| 0 <= p < q < a1.len() implies seq_le(
            #[trigger] a1[p],
            #[trigger] a1[q],
        ) by {
            assert(a1[p] == a[p + 1] && a1[q] == a[q + 1]);
        }
        assert forall|p: int, q: int| 0 <= p < q < b1.len() implies seq_le(
            #[trigger] b1[p],
            #[trigger] b1[q],
        ) by {
            assert(b1[p] == b[p + 1] && b1[q] == b[q + 1]);
        }
        law_sorted_arrangement_unique(a1, b1);
        assert(a =~= seq![a[0]] + a1);
        assert(b =~= seq![b[0]] + b1);
    }
}

/// A copy of a character vector.
pub fn copy_chars(v: &[char]) -> (r: Vec<char>)
    ensures
        r@ == v@,
{
    let mut r: Vec<char> = Vec::new();
    let mut i: usize = 0;
    while i < v.len()
        invariant
            i <= v.len(),
            r@ == v@.take(i as int),
        decreases v.len() - i,
    {
        r.push(v[i]);
        proof {
            assert(r@ =~= v@.take(i + 1));
        }
        i = i + 1;
    }
    proof {
        assert(r@ =~= v@);
    }
    r
}

/// The character sequences of a vector of character vectors.
pub open spec fn char_lists(v: Seq<Vec<char>>) -> Seq<Seq<char>> {
    v.map_values(|x: Vec<char>| x@)
}

/// The first position of the sorted `r` whose string comes strictly after `x`.
fn insertion_point(r: &Vec<Vec<char>>, x: &[char]) -> (p: usize)
    requires
        sorted(char_lists(r@)),
    ensures
        p <= r.len(),
        forall|j: int| 0 <= j < p ==> !seq_less(x@, #[trigger] char_lists(r@)[j]),
        p < r.len() ==> seq_less(x@, char_lists(r@)[p as int]),
{
    let mut p: usize = 0;
    while p < r.len() && !is_after(r[p].as_slice(), x)
        invariant
            p <= r.len(),
            forall|j: int| 0 <= j < p ==> !seq_less(x@, #[trigger] char_lists(r@)[j]),
        decreases r.len() - p,
    {
        p = p + 1;
    }
    p
}

/// Whether `a` comes strictly after `x`.
fn is_after(a: &[char], x: &[char]) -> (b: bool)
    ensures
        b == seq_less(x@, a@),
{
    match compare_chars(x, a) {
        Order::Less => true,
        _ => false,
    }
}

/// The strings in ascending order: a sorted arrangement of the same strings.
pub fn sort_strings(v: &Vec<Vec<char>>) -> (r: Vec<Vec<char>>)
    ensures
        sorted(char_lists(r@)),
        char_lists(r@).to_multiset() == char_lists(v@).to_multiset(),
{
    let mut r: Vec<Vec<char>> = Vec::new();
    let mut i: usize = 0;
    proof {
        assert(char_lists(r@) =~= char_lists(v@).take(0));
    }
    while i < v.len()
        invariant
            i <= v.len(),
            sorted(char_lists(r@)),
            char_lists(r@).to_multiset() == char_lists(v@).take(i as int).to_multiset(),
        decreases v.len() - i,
    {
        let x = copy_chars(v[i].as_slice());
        let p: usize = insertion_point(&r, x.as_slice());
        let ghost old_r = char_lists(r@);
        r.insert(p, x);
        proof {
            let l = char_lists(r@);
            let xs = v@[i as int]@;
            assert(l =~= old_r.insert(p as int, xs));
            assert forall|a: int, b: int| 0 <= a < b < l.len() implies seq_le(
                #[trigger] l[a],
                #[trigger] l[b],
            ) by {
                if b < p {
                } else if b == p {
                    lemma_less_total(xs, l[a]);
                } else if a < p {
                    assert(l[a] == old_r[a]);
                    assert(!seq_less(xs, old_r[a]));
                    lemma_less_total(xs, old_r[a]);
                    assert(seq_less(xs, old_r[p as int]));
                    if b - 1 > p {
                        assert(seq_le(old_r[p as int], old_r[b - 1]));
                        if seq_less(old_r[p as int], old_r[b - 1]) {
                            lemma_less_transitive(xs, old_r[p as int], old_r[b - 1]);
                        }
                    }
                    assert(seq_less(xs, l[b]));
                    if seq_less(l[a], xs) {
                        lemma_less_transitive(l[a], xs, l[b]);
                    }
                } else if a == p {
                    assert(seq_less(xs, old_r[p as int]));
                    if b - 1 > p {
                        assert(seq_le(old_r[p as int], old_r[b - 1]));
                        if seq_less(old_r[p as int], old_r[b - 1]) {
                            lemma_less_transitive(xs, old_r[p as int], old_r[b - 1]);
                        }
                    }
                } else {
                    assert(l[a] == old_r[a - 1] && l[b] == old_r[b - 1]);
                }
            }
            vstd::seq_lib::to_multiset_insert(old_r, p as int, xs);
            let t = char_lists(v@).take(i + 1);
            assert(t =~= char_lists(v@).take(i as int).push(xs));
            vstd::seq_lib::to_multiset_build(char_lists(v@).take(i as int), xs);
        }
        i = i + 1;
    }
    proof {
        assert(char_lists(v@).take(i as int) =~= char_lists(v@));
    }
    r
}

} // verus!
