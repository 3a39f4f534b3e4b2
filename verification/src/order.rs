//! Text in order.

use crate::text::{texts, to_chars};
use vstd::prelude::*;

verus! {

/// Whether `a` comes before `b`, or is the same, by the code points of their characters.
pub open spec fn text_le(a: Seq<char>, b: Seq<char>) -> bool
    decreases a.len(),
{
    if a.len() == 0 {
        true
    } else if b.len() == 0 {
        false
    } else {
        a[0] < b[0] || (a[0] == b[0] && text_le(a.skip(1), b.skip(1)))
    }
}

/// Text order holds one way or the other.
pub proof fn lemma_text_le_total(a: Seq<char>, b: Seq<char>)
    ensures
        text_le(a, b) || text_le(b, a),
    decreases a.len(),
{
    if a.len() > 0 && b.len() > 0 && a[0] == b[0] {
        lemma_text_le_total(a.skip(1), b.skip(1));
    }
}

/// Text order is transitive.
pub proof fn lemma_text_le_trans(a: Seq<char>, b: Seq<char>, c: Seq<char>)
    requires
        text_le(a, b),
        text_le(b, c),
    ensures
        text_le(a, c),
    decreases a.len(),
{
    if a.len() > 0 && b.len() > 0 && c.len() > 0 && a[0] == b[0] && b[0] == c[0] {
        lemma_text_le_trans(a.skip(1), b.skip(1), c.skip(1));
    }
}

/// Whether `a` comes before `b`, or is the same.
pub fn is_text_le(a: &str, b: &str) -> (r: bool)
    ensures
        r == text_le(a@, b@),
{
    let x = to_chars(a);
    let y = to_chars(b);
    let mut i: usize = 0;
    assert(x@.skip(0) =~= a@);
    assert(y@.skip(0) =~= b@);
    while i < x.len()
        invariant
            i <= x@.len(),
            i <= y@.len(),
            text_le(a@, b@) == text_le(x@.skip(i as int), y@.skip(i as int)),
        decreases x@.len() - i,
    {
        if i >= y.len() {
            return false;
        }
        assert(x@.skip(i as int)[0] == x@[i as int] && y@.skip(i as int)[0] == y@[i as int]);
        if x[i] < y[i] {
            return true;
        }
        if x[i] > y[i] {
            return false;
        }
        assert(x@.skip(i as int).skip(1) =~= x@.skip(i + 1));
        assert(y@.skip(i as int).skip(1) =~= y@.skip(i + 1));
        i += 1;
    }
    true
}

/// Whether texts are in order.
pub open spec fn in_order(v: Seq<Seq<char>>) -> bool {
    forall|i: int, j: int| 0 <= i <= j < v.len() ==> text_le(#[trigger] v[i], #[trigger] v[j])
}

proof fn lemma_text_le_refl(a: Seq<char>)
    ensures
        text_le(a, a),
    decreases a.len(),
{
    if a.len() > 0 {
        lemma_text_le_refl(a.skip(1));
    }
}

proof fn lemma_insert(v: Seq<Seq<char>>, i: int, x: Seq<char>)
    requires
        in_order(v),
        0 <= i <= v.len(),
        forall|k: int| 0 <= k < i ==> text_le(#[trigger] v[k], x),
        i < v.len() ==> text_le(x, v[i]),
    ensures
        in_order(v.insert(i, x)),
        v.insert(i, x).to_multiset() == v.to_multiset().insert(x),
{
    broadcast use vstd::seq_lib::group_to_multiset_ensures;

    let w = v.insert(i, x);
    assert forall|a: int, b: int| 0 <= a <= b < w.len() implies text_le(
        #[trigger] w[a],
        #[trigger] w[b],
    ) by {
        lemma_text_le_refl(x);
        if a < i {
            assert(w[a] == v[a]);
            if b < i {
                assert(w[b] == v[b]);
            } else if b > i {
                assert(w[b] == v[b - 1]);
            }
        } else if a == i {
            if b > i {
                assert(w[b] == v[b - 1]);
                lemma_text_le_trans(x, v[i], v[b - 1]);
            }
        } else {
            assert(w[a] == v[a - 1]);
            assert(w[b] == v[b - 1]);
        }
    }
}

/// Puts texts in order.
pub fn sort_texts(v: Vec<String>) -> (r: Vec<String>)
    ensures
        in_order(texts(r@)),
        texts(r@).to_multiset() == texts(v@).to_multiset(),
        r@.len() == v@.len(),
{
    let ghost all = texts(v@);
    let mut r: Vec<String> = Vec::new();
    let mut k: usize = 0;
    assert(texts(r@) =~= all.take(0));
    while k < v.len()
        invariant
            k <= v@.len(),
            all == texts(v@),
            r@.len() == k,
            in_order(texts(r@)),
            texts(r@).to_multiset() == all.take(k as int).to_multiset(),
        decreases v@.len() - k,
    {
        let ghost sorted = texts(r@);
        let x = v[k].clone();
        let mut i: usize = 0;
        while i < r.len() && is_text_le(r[i].as_str(), x.as_str())
            invariant
                i <= r@.len(),
                sorted == texts(r@),
                forall|m: int| 0 <= m < i ==> text_le(#[trigger] sorted[m], x@),
            decreases r@.len() - i,
        {
            assert(sorted[i as int] == r@[i as int]@);
            i += 1;
        }
        proof {
            if i < r@.len() {
                assert(sorted[i as int] == r@[i as int]@);
                lemma_text_le_total(x@, sorted[i as int]);
            }
            lemma_insert(sorted, i as int, x@);
        }
        r.insert(i, x);
        proof {
            assert(texts(r@) =~= sorted.insert(i as int, all[k as int]));
            assert(all.take(k + 1) =~= all.take(k as int).push(all[k as int]));
            all.take(k as int).to_multiset_ensures();
        }
        k += 1;
    }
    assert(all.take(k as int) =~= all);
    r
}

/// Text comes in the order of its first character that differs, and a text comes before those that it
/// begins.
pub proof fn law_text_is_ordered_by_its_first_difference(a: Seq<char>, b: Seq<char>, k: int)
    requires
        0 <= k <= a.len(),
        k <= b.len(),
        a.take(k) == b.take(k),
        k < a.len() && k < b.len() ==> a[k] != b[k],
    ensures
        text_le(a, b) == if k < a.len() && k < b.len() {
            a[k] < b[k]
        } else {
            k == a.len()
        },
    decreases k,
{
    if k > 0 {
        assert(a[0] == a.take(k)[0] && b[0] == b.take(k)[0]);
        let x = a.skip(1);
        let y = b.skip(1);
        assert(x.take(k - 1) =~= a.take(k).skip(1));
        assert(y.take(k - 1) =~= b.take(k).skip(1));
        law_text_is_ordered_by_its_first_difference(x, y, k - 1);
    }
}

} // verus!
