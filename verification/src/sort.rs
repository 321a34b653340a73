//! A merge sort over a caller-supplied "less or equal" test.
use vstd::prelude::*;
use vstd::relations::sorted_by;
use vstd::multiset::Multiset;

verus! {

broadcast use vstd::seq_lib::group_to_multiset_ensures;

/// `leq` relates every two values one way or the other and is transitive.
pub open spec fn total_preorder<T>(leq: spec_fn(T, T) -> bool) -> bool {
    &&& forall|a: T, b: T| #[trigger] leq(a, b) || leq(b, a)
    &&& forall|a: T, b: T, c: T| #[trigger] leq(a, b) && #[trigger] leq(b, c) ==> leq(a, c)
}

/// The executable test `le` computes `leq`.
pub open spec fn computes<T, F: Fn(&T, &T) -> bool>(le: F, leq: spec_fn(T, T) -> bool) -> bool {
    &&& forall|a: &T, b: &T| #[trigger] le.requires((a, b))
    &&& forall|a: &T, b: &T, r: bool| le.ensures((a, b), r) ==> r == leq(*a, *b)
}

proof fn lemma_reflexive<T>(leq: spec_fn(T, T) -> bool, a: T)
    requires
        total_preorder(leq),
    ensures
        leq(a, a),
{
    assert(leq(a, a) || leq(a, a));
}

/// Merges two sorted sequences into one sorted sequence with the same elements.
fn merge<T, F: Fn(&T, &T) -> bool>(a: Vec<T>, b: Vec<T>, le: &F, Ghost(leq): Ghost<spec_fn(T, T) -> bool>) -> (r: Vec<T>)
    requires
        computes(*le, leq),
        total_preorder(leq),
        sorted_by(a@, leq),
        sorted_by(b@, leq),
    ensures
        r@.to_multiset() == a@.to_multiset().add(b@.to_multiset()),
        sorted_by(r@, leq),
{
    let ghost total = a@.to_multiset().add(b@.to_multiset());
    let mut a = a;
    let mut b = b;
    let mut out: Vec<T> = Vec::new();
    while a.len() > 0 || b.len() > 0
        invariant
            computes(*le, leq),
            total_preorder(leq),
            sorted_by(a@, leq),
            sorted_by(b@, leq),
            out@.to_multiset().add(a@.to_multiset()).add(b@.to_multiset()) == total,
            forall|i: int, j: int| 0 <= i < j < out@.len() ==> #[trigger] leq(out@[j], out@[i]),
            forall|i: int, k: int| 0 <= i < out@.len() && 0 <= k < a@.len() ==> #[trigger] leq(a@[k], out@[i]),
            forall|i: int, k: int| 0 <= i < out@.len() && 0 <= k < b@.len() ==> #[trigger] leq(b@[k], out@[i]),
        decreases a@.len() + b@.len(),
    {
        let take_a = if a.len() == 0 {
            false
        } else if b.len() == 0 {
            true
        } else {
            !le(&a[a.len() - 1], &b[b.len() - 1])
        };
        let ghost old_out = out@;
        let ghost old_a = a@;
        let ghost old_b = b@;
        if take_a {
            let x = a.pop().unwrap();
            proof {
                assert(old_a == a@.push(x));
                if old_b.len() > 0 {
                    assert(leq(old_b.last(), x));
                    assert forall|k: int| 0 <= k < b@.len() implies leq(b@[k], x) by {
                        if k < b@.len() - 1 {
                            assert(leq(b@[k], old_b.last()));
                        } else {
                            lemma_reflexive(leq, x);
                        }
                    }
                }
                assert forall|k: int| 0 <= k < a@.len() implies leq(a@[k], x) by {
                    assert(leq(old_a[k], old_a[old_a.len() - 1]));
                }
            }
            out.push(x);
            proof {
                assert(out@ == old_out.push(x));
                assert forall|i: int, j: int| 0 <= i < j < out@.len() implies #[trigger] leq(out@[j], out@[i]) by {
                    if j == out@.len() - 1 {
                        assert(leq(old_a[old_a.len() - 1], old_out[i]));
                    }
                }
                assert forall|i: int, k: int| 0 <= i < out@.len() && 0 <= k < a@.len() implies #[trigger] leq(a@[k], out@[i]) by {
                    if i < out@.len() - 1 {
                        assert(leq(old_a[k], old_out[i]));
                    }
                }
                assert forall|i: int, k: int| 0 <= i < out@.len() && 0 <= k < b@.len() implies #[trigger] leq(b@[k], out@[i]) by {
                    if i < out@.len() - 1 {
                        assert(leq(old_b[k], old_out[i]));
                    }
                }
                assert(out@.to_multiset().add(a@.to_multiset()).add(b@.to_multiset()) =~= total);
            }
        } else {
            let x = b.pop().unwrap();
            proof {
                assert(old_b == b@.push(x));
                if old_a.len() > 0 {
                    assert(leq(old_a.last(), x));
                    assert forall|k: int| 0 <= k < a@.len() implies leq(a@[k], x) by {
                        if k < a@.len() - 1 {
                            assert(leq(a@[k], old_a.last()));
                        } else {
                            lemma_reflexive(leq, x);
                        }
                    }
                }
                assert forall|k: int| 0 <= k < b@.len() implies leq(b@[k], x) by {
                    assert(leq(old_b[k], old_b[old_b.len() - 1]));
                }
            }
            out.push(x);
            proof {
                assert(out@ == old_out.push(x));
                assert forall|i: int, j: int| 0 <= i < j < out@.len() implies #[trigger] leq(out@[j], out@[i]) by {
                    if j == out@.len() - 1 {
                        assert(leq(old_b[old_b.len() - 1], old_out[i]));
                    }
                }
                assert forall|i: int, k: int| 0 <= i < out@.len() && 0 <= k < a@.len() implies #[trigger] leq(a@[k], out@[i]) by {
                    if i < out@.len() - 1 {
                        assert(leq(old_a[k], old_out[i]));
                    }
                }
                assert forall|i: int, k: int| 0 <= i < out@.len() && 0 <= k < b@.len() implies #[trigger] leq(b@[k], out@[i]) by {
                    if i < out@.len() - 1 {
                        assert(leq(old_b[k], old_out[i]));
                    }
                }
                assert(out@.to_multiset().add(a@.to_multiset()).add(b@.to_multiset()) =~= total);
            }
        }
    }
    proof {
        assert(a@.to_multiset() =~= Multiset::empty());
        assert(b@.to_multiset() =~= Multiset::empty());
        assert(out@.to_multiset() =~= total);
    }
    let mut res: Vec<T> = Vec::new();
    while out.len() > 0
        invariant
            total_preorder(leq),
            res@.to_multiset().add(out@.to_multiset()) == total,
            forall|i: int, j: int| 0 <= i < j < out@.len() ==> #[trigger] leq(out@[j], out@[i]),
            sorted_by(res@, leq),
            forall|i: int, k: int| 0 <= i < res@.len() && 0 <= k < out@.len() ==> #[trigger] leq(res@[i], out@[k]),
        decreases out@.len(),
    {
        let ghost old_out = out@;
        let ghost old_res = res@;
        let x = out.pop().unwrap();
        res.push(x);
        proof {
            assert(old_out == out@.push(x));
            assert(res@ == old_res.push(x));
            assert forall|i: int, j: int| 0 <= i < j < res@.len() implies #[trigger] leq(res@[i], res@[j]) by {
                if j == res@.len() - 1 {
                    assert(leq(old_res[i], old_out[old_out.len() - 1]));
                }
            }
            assert forall|i: int, k: int| 0 <= i < res@.len() && 0 <= k < out@.len() implies #[trigger] leq(res@[i], out@[k]) by {
                if i < res@.len() - 1 {
                    assert(leq(old_res[i], old_out[k]));
                } else {
                    assert(leq(old_out[old_out.len() - 1], old_out[k]));
                }
            }
            assert(res@.to_multiset().add(out@.to_multiset()) =~= total);
        }
    }
    proof {
        assert(out@.to_multiset() =~= Multiset::empty());
        assert(res@.to_multiset() =~= total);
    }
    res
}

/// Sorts `v` by `le`, which computes the total preorder `leq`: the same
/// elements, in `leq` order.
pub fn merge_sort_by<T, F: Fn(&T, &T) -> bool>(v: Vec<T>, le: &F, Ghost(leq): Ghost<spec_fn(T, T) -> bool>) -> (r: Vec<T>)
    requires
        computes(*le, leq),
        total_preorder(leq),
    ensures
        r@.to_multiset() == v@.to_multiset(),
        sorted_by(r@, leq),
    decreases v@.len(),
{
    if v.len() <= 1 {
        return v;
    }
    let ghost all = v@;
    let mut left = v;
    let mid = left.len() / 2;
    let right = left.split_off(mid);
    proof {
        assert(all =~= left@ + right@);
        vstd::seq_lib::lemma_multiset_commutative(left@, right@);
    }
    let l = merge_sort_by(left, le, Ghost(leq));
    let r = merge_sort_by(right, le, Ghost(leq));
    merge(l, r, le, Ghost(leq))
}

/// Sequences with the same elements keep the same elements under any map.
pub proof fn lemma_map_preserves_multiset<A, B>(a: Seq<A>, b: Seq<A>, f: spec_fn(A) -> B)
    requires
        a.to_multiset() == b.to_multiset(),
    ensures
        a.map_values(f).to_multiset() == b.map_values(f).to_multiset(),
    decreases a.len(),
{
    broadcast use vstd::multiset::group_multiset_axioms;
    if a.len() == 0 {
        assert(b.to_multiset().len() == 0);
        assert(b.len() == 0);
        assert(a.map_values(f) =~= b.map_values(f));
    } else {
        let x = a[0];
        assert(a.to_multiset().count(x) > 0) by {
            assert(a.contains(x));
        }
        assert(b.contains(x));
        let i = choose|i: int| 0 <= i < b.len() && b[i] == x;
        let a2 = a.drop_first();
        let b2 = b.remove(i);
        assert(a =~= seq![x] + a2);
        assert(a.remove(0) =~= a2);
        assert(a2.to_multiset() =~= a.to_multiset().remove(x));
        assert(b2.to_multiset() =~= b.to_multiset().remove(x));
        lemma_map_preserves_multiset(a2, b2, f);
        assert(a.map_values(f).remove(0) =~= a2.map_values(f));
        assert(b.map_values(f).remove(i) =~= b2.map_values(f));
        assert(a.map_values(f).to_multiset() =~= a2.map_values(f).to_multiset().insert(f(x)));
        assert(b.map_values(f).to_multiset() =~= b2.map_values(f).to_multiset().insert(f(x)));
    }
}

} // verus!
