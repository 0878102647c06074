//! Sorting by an order given as a function.

use vstd::prelude::*;

verus! {

broadcast use vstd::seq_lib::group_to_multiset_ensures;

/// Whether a relation orders everything: of two items one may precede the other, and what may
/// precede the middle one of three may precede the last.
pub open spec fn is_order<T>(le: spec_fn(T, T) -> bool) -> bool {
    &&& forall|a: T, b: T| #[trigger] le(a, b) || le(b, a)
    &&& forall|a: T, b: T, c: T| #[trigger] le(a, b) && #[trigger] le(b, c) ==> le(a, c)
}

/// Whether no item of a list has to stand before an earlier one.
pub open spec fn is_sorted<T>(s: Seq<T>, le: spec_fn(T, T) -> bool) -> bool {
    forall|i: int, j: int| 0 <= i < j < s.len() ==> le(#[trigger] s[i], #[trigger] s[j])
}

/// Whether an executable function computes an order.
pub open spec fn computes<T, F: Fn(T, T) -> bool>(f: F, le: spec_fn(T, T) -> bool) -> bool {
    &&& forall|a: T, b: T| call_requires(f, (a, b))
    &&& forall|a: T, b: T, r: bool| call_ensures(f, (a, b), r) ==> r == le(a, b)
}

fn merge<T: Copy, F: Fn(T, T) -> bool>(
    a: &[T],
    b: &[T],
    f: &F,
    le: Ghost<spec_fn(T, T) -> bool>,
) -> (out: Vec<T>)
    requires
        is_order(le@),
        computes(*f, le@),
        is_sorted(a@, le@),
        is_sorted(b@, le@),
        a.len() + b.len() <= usize::MAX,
    ensures
        is_sorted(out@, le@),
        out@.to_multiset() == a@.to_multiset().add(b@.to_multiset()),
        out.len() == a.len() + b.len(),
{
    let mut out: Vec<T> = Vec::new();
    let mut i: usize = 0;
    let mut j: usize = 0;
    proof {
        assert(a@.take(0).to_multiset() =~= vstd::multiset::Multiset::empty());
        assert(b@.take(0).to_multiset() =~= vstd::multiset::Multiset::empty());
        assert(out@.to_multiset() =~= a@.take(0).to_multiset().add(b@.take(0).to_multiset()));
    }
    while i < a.len() || j < b.len()
        invariant
            i <= a.len(),
            j <= b.len(),
            a.len() + b.len() <= usize::MAX,
            is_order(le@),
            computes(*f, le@),
            is_sorted(a@, le@),
            is_sorted(b@, le@),
            is_sorted(out@, le@),
            out.len() == i + j,
            out@.to_multiset() == a@.take(i as int).to_multiset().add(
                b@.take(j as int).to_multiset(),
            ),
            forall|k: int, m: int|
                0 <= k < out.len() && i <= m < a.len() ==> le@(
                    #[trigger] out@[k],
                    #[trigger] a@[m],
                ),
            forall|k: int, m: int|
                0 <= k < out.len() && j <= m < b.len() ==> le@(
                    #[trigger] out@[k],
                    #[trigger] b@[m],
                ),
        decreases a.len() - i + b.len() - j,
    {
        let ghost before = out@;
        let left: bool = if i < a.len() && j < b.len() {
            f(a[i], b[j])
        } else {
            i < a.len()
        };
        if left {
            let x = a[i];
            proof {
                if j < b.len() {
                    assert(le@(a@[i as int], b@[j as int]));
                }
                assert forall|m: int| j <= m < b.len() implies le@(x, #[trigger] b@[m]) by {
                    if j < m {
                        assert(le@(b@[j as int], b@[m]));
                    }
                }
                assert forall|m: int| i < m < a.len() implies le@(x, #[trigger] a@[m]) by {
                    assert(le@(a@[i as int], a@[m]));
                }
                assert(a@.take(i + 1) =~= a@.take(i as int).push(x));
            }
            out.push(x);
            i = i + 1;
        } else {
            let x = b[j];
            proof {
                if i < a.len() {
                    assert(le@(b@[j as int], a@[i as int]));
                }
                assert forall|m: int| i <= m < a.len() implies le@(x, #[trigger] a@[m]) by {
                    if i < m {
                        assert(le@(a@[i as int], a@[m]));
                    }
                }
                assert forall|m: int| j < m < b.len() implies le@(x, #[trigger] b@[m]) by {
                    assert(le@(b@[j as int], b@[m]));
                }
                assert(b@.take(j + 1) =~= b@.take(j as int).push(x));
            }
            out.push(x);
            j = j + 1;
        }
        proof {
            assert(out@.to_multiset() =~= a@.take(i as int).to_multiset().add(
                b@.take(j as int).to_multiset(),
            ));
            assert(forall|k: int| 0 <= k < before.len() ==> out@[k] == before[k]);
        }
    }
    assert(a@.take(i as int) =~= a@);
    assert(b@.take(j as int) =~= b@);
    out
}

/// The items of a list in an order.
pub fn sorted<T: Copy, F: Fn(T, T) -> bool>(
    items: &[T],
    f: &F,
    le: Ghost<spec_fn(T, T) -> bool>,
) -> (out: Vec<T>)
    requires
        is_order(le@),
        computes(*f, le@),
    ensures
        is_sorted(out@, le@),
        out@.to_multiset() == items@.to_multiset(),
        out.len() == items.len(),
    decreases items.len(),
{
    if items.len() <= 1 {
        let mut out: Vec<T> = Vec::new();
        if items.len() == 1 {
            out.push(items[0]);
        }
        assert(out@ =~= items@);
        return out;
    }
    let mid: usize = items.len() / 2;
    let left = vstd::slice::slice_subrange(items, 0, mid);
    let right = vstd::slice::slice_subrange(items, mid, items.len());
    let a = sorted(left, f, le);
    let b = sorted(right, f, le);
    proof {
        assert(left@ + right@ =~= items@);
        vstd::seq_lib::lemma_multiset_commutative(left@, right@);
    }
    merge(&a, &b, f, le)
}

/// Two lists with the same items still have the same items when each is put through a function.
pub proof fn mapping_keeps_items<A, B>(s: Seq<A>, t: Seq<A>, f: spec_fn(A) -> B)
    requires
        s.to_multiset() == t.to_multiset(),
    ensures
        s.map_values(f).to_multiset() == t.map_values(f).to_multiset(),
    decreases s.len(),
{
    assert(s.len() == s.to_multiset().len() && t.len() == t.to_multiset().len());
    if s.len() > 0 {
        let a = s.last();
        assert(s.contains(a));
        assert(s.to_multiset().count(a) > 0);
        assert(t.contains(a));
        let k = choose|k: int| 0 <= k < t.len() && t[k] == a;
        let rest = t.remove(k);
        let front = s.drop_last();
        assert(s.remove(s.len() - 1) =~= front);
        vstd::seq_lib::to_multiset_remove(s, s.len() - 1);
        vstd::seq_lib::to_multiset_remove(t, k);
        mapping_keeps_items(front, rest, f);
        assert(s.map_values(f) =~= front.map_values(f).push(f(a)));
        assert(t.map_values(f) =~= rest.map_values(f).insert(k, f(a)));
        vstd::seq_lib::to_multiset_insert(rest.map_values(f), k, f(a));
    } else {
        assert(s.map_values(f) =~= t.map_values(f));
    }
}

} // verus!
