//! First-match search and insertion-sorted views of sequences.
//!
//! The store answers queries in a fixed order.  `find_idx` is the index
//! of the first element satisfying a predicate; `sort_by_ins` is the
//! deterministic (stable) insertion-sorted arrangement of a sequence
//! under a total "at or before" relation, which the ordered query
//! results are specified against.

use vstd::prelude::*;

verus! {

/// Index of the first element of `s` satisfying `p`.
pub open spec fn find_idx<T>(s: Seq<T>, p: spec_fn(T) -> bool) -> Option<int>
    decreases s.len(),
{
    if s.len() == 0 {
        None
    } else if p(s[0]) {
        Some(0)
    } else {
        match find_idx(s.drop_first(), p) {
            Some(i) => Some(i + 1),
            None => None,
        }
    }
}

pub proof fn lemma_find_idx<T>(s: Seq<T>, p: spec_fn(T) -> bool)
    ensures
        match find_idx(s, p) {
            Some(i) => 0 <= i < s.len() && p(s[i]) && forall|j: int| 0 <= j < i ==> !p(#[trigger] s[j]),
            None => forall|j: int| 0 <= j < s.len() ==> !p(#[trigger] s[j]),
        },
    decreases s.len(),
{
    if s.len() > 0 && !p(s[0]) {
        let t = s.drop_first();
        lemma_find_idx(t, p);
        assert(forall|j: int| 1 <= j < s.len() ==> #[trigger] s[j] == t[j - 1]);
    }
}

pub proof fn lemma_find_idx_at<T>(s: Seq<T>, p: spec_fn(T) -> bool, i: int)
    requires
        0 <= i < s.len(),
        p(s[i]),
        forall|j: int| 0 <= j < i ==> !p(#[trigger] s[j]),
    ensures
        find_idx(s, p) == Some(i),
    decreases i,
{
    if i > 0 {
        lemma_find_idx_at(s.drop_first(), p, i - 1);
    }
}

pub proof fn lemma_find_idx_none<T>(s: Seq<T>, p: spec_fn(T) -> bool)
    requires
        forall|j: int| 0 <= j < s.len() ==> !p(#[trigger] s[j]),
    ensures
        find_idx(s, p) is None,
    decreases s.len(),
{
    if s.len() > 0 {
        lemma_find_idx_none(s.drop_first(), p);
    }
}

/// `s` without the elements satisfying `p`, order kept.
pub open spec fn remove_by<T>(s: Seq<T>, p: spec_fn(T) -> bool) -> Seq<T>
    decreases s.len(),
{
    if s.len() == 0 {
        Seq::empty()
    } else if p(s.last()) {
        remove_by(s.drop_last(), p)
    } else {
        remove_by(s.drop_last(), p).push(s.last())
    }
}

/// No survivor satisfies `p`, and a property of every element survives.
pub proof fn lemma_remove_by_all<T>(s: Seq<T>, p: spec_fn(T) -> bool, q: spec_fn(T) -> bool)
    requires
        forall|i: int| 0 <= i < s.len() ==> q(#[trigger] s[i]),
    ensures
        remove_by(s, p).len() <= s.len(),
        forall|i: int|
            0 <= i < remove_by(s, p).len() ==> q(#[trigger] remove_by(s, p)[i]) && !p(
                remove_by(s, p)[i],
            ),
    decreases s.len(),
{
    if s.len() > 0 {
        let t = s.drop_last();
        assert(forall|i: int| 0 <= i < t.len() ==> q(#[trigger] t[i])) by {
            assert(forall|i: int| 0 <= i < t.len() ==> t[i] == s[i]);
        }
        lemma_remove_by_all(t, p, q);
    }
}

/// A pairwise property of `s` holds pairwise of the survivors.
pub proof fn lemma_remove_by_pairwise<T>(s: Seq<T>, p: spec_fn(T) -> bool, r: spec_fn(
    T,
    T,
) -> bool)
    requires
        forall|i: int, j: int| 0 <= i < j < s.len() ==> r(#[trigger] s[i], #[trigger] s[j]),
    ensures
        forall|i: int, j: int|
            0 <= i < j < remove_by(s, p).len() ==> r(
                #[trigger] remove_by(s, p)[i],
                #[trigger] remove_by(s, p)[j],
            ),
    decreases s.len(),
{
    if s.len() > 0 {
        let t = s.drop_last();
        let e = s.last();
        assert(forall|i: int, j: int|
            0 <= i < j < t.len() ==> r(#[trigger] t[i], #[trigger] t[j])) by {
            assert(forall|i: int| 0 <= i < t.len() ==> t[i] == s[i]);
        }
        lemma_remove_by_pairwise(t, p, r);
        if !p(e) {
            let q = |x: T| r(x, e);
            assert(forall|i: int| 0 <= i < t.len() ==> q(#[trigger] t[i])) by {
                assert(forall|i: int| 0 <= i < t.len() ==> t[i] == s[i]);
            }
            lemma_remove_by_all(t, p, q);
            let w = remove_by(t, p).push(e);
            assert forall|i: int, j: int| 0 <= i < j < w.len() implies r(
                #[trigger] w[i],
                #[trigger] w[j],
            ) by {
                assert(forall|i: int| 0 <= i < w.len() - 1 ==> w[i] == remove_by(t, p)[i]);
            }
        }
    }
}

/// Removing what nothing satisfies changes nothing.
pub proof fn lemma_remove_by_absent<T>(s: Seq<T>, p: spec_fn(T) -> bool)
    requires
        forall|i: int| 0 <= i < s.len() ==> !p(#[trigger] s[i]),
    ensures
        remove_by(s, p) == s,
    decreases s.len(),
{
    if s.len() == 0 {
        assert(remove_by(s, p) =~= s);
    } else {
        let t = s.drop_last();
        assert(forall|i: int| 0 <= i < t.len() ==> !p(#[trigger] t[i])) by {
            assert(forall|i: int| 0 <= i < t.len() ==> t[i] == s[i]);
        }
        lemma_remove_by_absent(t, p);
        assert(remove_by(s, p) =~= s);
    }
}

/// Adjacent-pairs ordering: every element sorts at or before the next.
pub open spec fn sorted_adj<T>(s: Seq<T>, leq: spec_fn(T, T) -> bool) -> bool {
    forall|i: int| 0 <= i && i + 1 < s.len() ==> #[trigger] leq(s[i], s[i + 1])
}

/// A total "at or before" relation.
pub open spec fn total_leq<T>(leq: spec_fn(T, T) -> bool) -> bool {
    forall|a: T, b: T| #[trigger] leq(a, b) || leq(b, a)
}

/// `e` inserted after every element that sorts at or before it.
pub open spec fn insert_by<T>(s: Seq<T>, e: T, leq: spec_fn(T, T) -> bool) -> Seq<T>
    decreases s.len(),
{
    if s.len() == 0 {
        seq![e]
    } else if leq(s[0], e) {
        seq![s[0]] + insert_by(s.drop_first(), e, leq)
    } else {
        seq![e] + s
    }
}

/// The stable insertion sort of `s` under `leq`.
pub open spec fn sort_by_ins<T>(s: Seq<T>, leq: spec_fn(T, T) -> bool) -> Seq<T>
    decreases s.len(),
{
    if s.len() == 0 {
        Seq::empty()
    } else {
        insert_by(sort_by_ins(s.drop_last(), leq), s.last(), leq)
    }
}

/// Where the first `i` elements sort at or before `e` and the element at
/// `i` (if any) does not, inserting `e` splits `s` exactly at `i`.
pub proof fn lemma_insert_by_split<T>(s: Seq<T>, e: T, leq: spec_fn(T, T) -> bool, i: int)
    requires
        0 <= i <= s.len(),
        forall|j: int| 0 <= j < i ==> leq(#[trigger] s[j], e),
        i < s.len() ==> !leq(s[i], e),
    ensures
        insert_by(s, e, leq) == s.take(i) + seq![e] + s.skip(i),
    decreases i,
{
    if i == 0 {
        assert(insert_by(s, e, leq) =~= s.take(0) + seq![e] + s.skip(0));
    } else {
        let t = s.drop_first();
        assert(leq(s[0], e));
        assert(forall|j: int| 0 <= j < i - 1 ==> leq(#[trigger] t[j], e)) by {
            assert(forall|j: int| 0 <= j < i - 1 ==> t[j] == s[j + 1]);
        }
        lemma_insert_by_split(t, e, leq, i - 1);
        assert(seq![s[0]] + (t.take(i - 1) + seq![e] + t.skip(i - 1)) =~= s.take(i) + seq![e]
            + s.skip(i));
    }
}

pub proof fn lemma_insert_by_len<T>(s: Seq<T>, e: T, leq: spec_fn(T, T) -> bool)
    ensures
        insert_by(s, e, leq).len() == s.len() + 1,
    decreases s.len(),
{
    if s.len() > 0 && leq(s[0], e) {
        lemma_insert_by_len(s.drop_first(), e, leq);
    }
}

pub proof fn lemma_sort_by_ins_len<T>(s: Seq<T>, leq: spec_fn(T, T) -> bool)
    ensures
        sort_by_ins(s, leq).len() == s.len(),
    decreases s.len(),
{
    if s.len() > 0 {
        lemma_sort_by_ins_len(s.drop_last(), leq);
        lemma_insert_by_len(sort_by_ins(s.drop_last(), leq), s.last(), leq);
    }
}

pub proof fn lemma_insert_by_sorted<T>(s: Seq<T>, e: T, leq: spec_fn(T, T) -> bool)
    requires
        sorted_adj(s, leq),
        total_leq(leq),
    ensures
        sorted_adj(insert_by(s, e, leq), leq),
    decreases s.len(),
{
    if s.len() == 0 {
    } else if leq(s[0], e) {
        let t = s.drop_first();
        assert(sorted_adj(t, leq)) by {
            assert(forall|j: int| 0 <= j && j + 1 < t.len() ==> #[trigger] t[j] == s[j + 1] && t[j
                + 1] == s[j + 2]);
        }
        lemma_insert_by_sorted(t, e, leq);
        let r = insert_by(t, e, leq);
        let w = seq![s[0]] + r;
        // the head of the inserted tail is either e or the old second element
        assert(r.len() > 0) by {
            lemma_insert_by_len(t, e, leq);
        }
        assert(leq(s[0], r[0])) by {
            if t.len() == 0 {
                assert(r[0] == e);
            } else if leq(t[0], e) {
                assert(r[0] == t[0]);
                assert(leq(s[0], s[1]));
            } else {
                assert(r[0] == e);
            }
        }
        assert forall|i: int| 0 <= i && i + 1 < w.len() implies #[trigger] leq(w[i], w[i + 1]) by {
            if i == 0 {
                assert(w[0] == s[0] && w[1] == r[0]);
            } else {
                let j = i - 1;
                assert(0 <= j && j + 1 < r.len());
                assert(leq(r[j], r[j + 1]));
                assert(w[i] == r[j] && w[i + 1] == r[j + 1]);
            }
        }
        assert(sorted_adj(w, leq));
        assert(insert_by(s, e, leq) == w);
    } else {
        assert(leq(e, s[0]));
        let w = seq![e] + s;
        assert forall|i: int| 0 <= i && i + 1 < w.len() implies #[trigger] leq(w[i], w[i + 1]) by {
            if i == 0 {
                assert(w[0] == e && w[1] == s[0]);
            } else {
                let j = i - 1;
                assert(0 <= j && j + 1 < s.len());
                assert(leq(s[j], s[j + 1]));
                assert(w[i] == s[j] && w[i + 1] == s[j + 1]);
            }
        }
        assert(sorted_adj(w, leq));
        assert(insert_by(s, e, leq) == w);
    }
}

pub proof fn lemma_sort_by_ins_sorted<T>(s: Seq<T>, leq: spec_fn(T, T) -> bool)
    requires
        total_leq(leq),
    ensures
        sorted_adj(sort_by_ins(s, leq), leq),
    decreases s.len(),
{
    if s.len() > 0 {
        lemma_sort_by_ins_sorted(s.drop_last(), leq);
        lemma_insert_by_sorted(sort_by_ins(s.drop_last(), leq), s.last(), leq);
    }
}

/// A property of every element and of the inserted one holds of every
/// element of the insertion.
pub proof fn lemma_insert_by_all<T>(s: Seq<T>, e: T, leq: spec_fn(T, T) -> bool, q: spec_fn(
    T,
) -> bool)
    requires
        forall|i: int| 0 <= i < s.len() ==> q(#[trigger] s[i]),
        q(e),
    ensures
        forall|i: int|
            0 <= i < insert_by(s, e, leq).len() ==> q(#[trigger] insert_by(s, e, leq)[i]),
    decreases s.len(),
{
    if s.len() > 0 && leq(s[0], e) {
        let t = s.drop_first();
        assert(forall|i: int| 0 <= i < t.len() ==> q(#[trigger] t[i])) by {
            assert(forall|i: int| 0 <= i < t.len() ==> t[i] == s[i + 1]);
        }
        lemma_insert_by_all(t, e, leq, q);
        assert(forall|i: int|
            1 <= i < insert_by(s, e, leq).len() ==> insert_by(s, e, leq)[i] == insert_by(
                t,
                e,
                leq,
            )[i - 1]);
    }
}

/// Every element of an insertion is an element of the sequence or the
/// inserted one.
pub proof fn lemma_insert_by_contains<T>(s: Seq<T>, e: T, leq: spec_fn(T, T) -> bool, x: T)
    requires
        insert_by(s, e, leq).contains(x),
    ensures
        s.contains(x) || x == e,
    decreases s.len(),
{
    if s.len() == 0 {
    } else if leq(s[0], e) {
        let t = s.drop_first();
        let w = seq![s[0]] + insert_by(t, e, leq);
        let k = choose|k: int| 0 <= k < w.len() && w[k] == x;
        if k == 0 {
            assert(s[0] == x);
        } else {
            assert(insert_by(t, e, leq)[k - 1] == x);
            assert(insert_by(t, e, leq).contains(x));
            lemma_insert_by_contains(t, e, leq, x);
            if t.contains(x) {
                let j = choose|j: int| 0 <= j < t.len() && t[j] == x;
                assert(s[j + 1] == x);
            }
        }
    } else {
        let w = seq![e] + s;
        let k = choose|k: int| 0 <= k < w.len() && w[k] == x;
        if k > 0 {
            assert(s[k - 1] == x);
        }
    }
}

/// A property of every element of `s` holds of every element of its
/// insertion sort.
pub proof fn lemma_sort_by_ins_all<T>(s: Seq<T>, leq: spec_fn(T, T) -> bool, q: spec_fn(T) -> bool)
    requires
        forall|i: int| 0 <= i < s.len() ==> q(#[trigger] s[i]),
    ensures
        forall|i: int|
            0 <= i < sort_by_ins(s, leq).len() ==> q(#[trigger] sort_by_ins(s, leq)[i]),
    decreases s.len(),
{
    if s.len() > 0 {
        let t = s.drop_last();
        assert(forall|i: int| 0 <= i < t.len() ==> q(#[trigger] t[i])) by {
            assert(forall|i: int| 0 <= i < t.len() ==> t[i] == s[i]);
        }
        lemma_sort_by_ins_all(t, leq, q);
        lemma_insert_by_all(sort_by_ins(t, leq), s.last(), leq, q);
    }
}

} // verus!
