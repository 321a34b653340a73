//! Disjoint-set forest with union by size and path halving.
use vstd::prelude::*;
use vstd::set_lib::set_int_range;

verus! {

/// Indices in `0..n` whose representative is `r`.
pub open spec fn class_of(root: Seq<int>, r: int) -> Set<int> {
    Set::new(|i: int| 0 <= i < root.len() && root[i] == r)
}

pub struct UnionFind {
    parent: Vec<usize>,
    size: Vec<usize>,
    /// Representative of each element.
    root: Ghost<Seq<int>>,
    /// Strictly increases along parent links.
    height: Ghost<Seq<nat>>,
    /// Bound on every height.
    max_height: Ghost<nat>,
}

impl UnionFind {
    /// The representative of each element.
    pub closed spec fn roots(&self) -> Seq<int> {
        self.root@
    }

    /// Number of elements.
    pub closed spec fn len(&self) -> nat {
        self.parent@.len()
    }

    /// Elements `x` and `y` are in the same set.
    pub open spec fn same(&self, x: int, y: int) -> bool {
        self.roots()[x] == self.roots()[y]
    }

    pub closed spec fn wf(&self) -> bool {
        let n = self.parent@.len();
        &&& self.size@.len() == n
        &&& self.root@.len() == n
        &&& self.height@.len() == n
        &&& forall|i: int| 0 <= i < n ==> #[trigger] self.parent@[i] < n
        &&& forall|i: int| 0 <= i < n ==> 0 <= #[trigger] self.root@[i] < n
        &&& forall|i: int| 0 <= i < n ==> self.parent@[#[trigger] self.root@[i]] == self.root@[i]
        &&& forall|i: int| 0 <= i < n ==> self.root@[#[trigger] self.parent@[i] as int] == self.root@[i]
        &&& forall|i: int| 0 <= i < n && #[trigger] self.parent@[i] == i ==> self.root@[i] == i
        &&& forall|i: int| 0 <= i < n && #[trigger] self.parent@[i] != i ==> self.height@[self.parent@[i] as int] > self.height@[i]
        &&& forall|i: int| 0 <= i < n ==> #[trigger] self.height@[i] <= self.max_height@
        &&& forall|r: int| 0 <= r < n && #[trigger] self.parent@[r] == r ==> self.size@[r] == class_of(self.root@, r).len()
    }

    /// `n` singleton sets.
    pub fn new(n: usize) -> (uf: Self)
        ensures
            uf.wf(),
            uf.len() == n,
            forall|i: int| 0 <= i < n ==> #[trigger] uf.roots()[i] == i,
    {
        let mut parent: Vec<usize> = Vec::new();
        let mut size: Vec<usize> = Vec::new();
        let mut i: usize = 0;
        while i < n
            invariant
                i <= n,
                parent@.len() == i,
                size@.len() == i,
                forall|k: int| 0 <= k < i ==> #[trigger] parent@[k] == k,
                forall|k: int| 0 <= k < i ==> #[trigger] size@[k] == 1,
            decreases n - i,
        {
            parent.push(i);
            size.push(1);
            i += 1;
        }
        let ghost root = Seq::new(n as nat, |k: int| k);
        let uf = UnionFind {
            parent,
            size,
            root: Ghost(root),
            height: Ghost(Seq::new(n as nat, |k: int| 0nat)),
            max_height: Ghost(0),
        };
        proof {
            assert forall|r: int| 0 <= r < n && #[trigger] uf.parent@[r] == r implies uf.size@[r] == class_of(uf.root@, r).len() by {
                assert(class_of(root, r) =~= set![r]);
            }
        }
        uf
    }

    /// Representative of `i`'s set. Compresses the path (halving).
    pub fn find(&mut self, i: usize) -> (r: usize)
        requires
            old(self).wf(),
            i < old(self).len(),
        ensures
            final(self).wf(),
            final(self).len() == old(self).len(),
            final(self).roots() == old(self).roots(),
            r as int == old(self).roots()[i as int],
    {
        let ghost target = self.root@[i as int];
        let mut i = i;
        while self.parent[i] != i
            invariant
                self.wf(),
                self.len() == old(self).len(),
                self.root@ == old(self).root@,
                i < self.len(),
                self.root@[i as int] == target,
            decreases self.max_height@ - self.height@[i as int],
        {
            let p = self.parent[i];
            let gp = self.parent[p];
            let ghost h = self.height@;
            self.parent.set(i, gp);
            proof {
                assert(self.parent@[i as int] == gp);
                assert forall|k: int| 0 <= k < self.len() && #[trigger] self.parent@[k] != k implies self.height@[self.parent@[k] as int] > self.height@[k] by {
                    if k == i as int {
                        if gp != p {
                            assert(h[gp as int] > h[p as int]);
                        }
                        assert(h[p as int] > h[i as int]);
                    }
                }
                assert forall|k: int| 0 <= k < self.len() implies self.root@[#[trigger] self.parent@[k] as int] == self.root@[k] by {
                    if k == i as int {
                        assert(self.root@[p as int] == self.root@[i as int]);
                    }
                }
                assert forall|r: int| 0 <= r < self.len() && #[trigger] self.parent@[r] == r implies self.size@[r] == class_of(self.root@, r).len() by {
                    if r == i as int {
                        assert(h[gp as int] > h[i as int] || gp == p);
                    }
                }
            }
            i = gp;
        }
        proof {
            assert(self.root@[i as int] == i);
        }
        i
    }

    /// Merges the sets of `a` and `b`.
    pub fn union(&mut self, a: usize, b: usize)
        requires
            old(self).wf(),
            a < old(self).len(),
            b < old(self).len(),
        ensures
            final(self).wf(),
            final(self).len() == old(self).len(),
            forall|x: int, y: int| 0 <= x < old(self).len() && 0 <= y < old(self).len() ==>
                (#[trigger] final(self).same(x, y) <==> (old(self).same(x, y)
                    || (old(self).same(x, a as int) && old(self).same(y, b as int))
                    || (old(self).same(x, b as int) && old(self).same(y, a as int)))),
    {
        let ghost orig = self.root@;
        let mut ra = self.find(a);
        let mut rb = self.find(b);
        proof {
            assert(self.parent@[orig[a as int]] == orig[a as int]);
            assert(self.parent@[orig[b as int]] == orig[b as int]);
        }
        if ra == rb {
            return;
        }
        if self.size[ra] < self.size[rb] {
            let t = ra;
            ra = rb;
            rb = t;
        }
        let plen = self.parent.len();
        let ghost n = self.len();
        let ghost root = self.root@;
        let ghost height = self.height@;
        let ghost new_root = Seq::new(n, |k: int| if root[k] == rb as int { ra as int } else { root[k] });
        let ghost ca = class_of(root, ra as int);
        let ghost cb = class_of(root, rb as int);
        proof {
            assert(ca.disjoint(cb));
            assert(ca.subset_of(set_int_range(0, n as int)));
            assert(cb.subset_of(set_int_range(0, n as int)));
            vstd::set_lib::lemma_int_range(0, n as int);
            vstd::set_lib::lemma_len_subset(ca + cb, set_int_range(0, n as int));
            vstd::set_lib::lemma_set_disjoint_lens(ca, cb);
            assert(class_of(new_root, ra as int) =~= ca + cb);
            assert(self.parent@[ra as int] == ra);
            assert(self.parent@[rb as int] == rb);
            assert(self.size@[ra as int] == ca.len());
            assert(self.size@[rb as int] == cb.len());
            assert(set_int_range(0, n as int).len() == n);
            assert(n == plen);
        }
        let new_size = self.size[ra] + self.size[rb];
        self.parent.set(rb, ra);
        self.size.set(ra, new_size);
        proof {
            let hr = if height[ra as int] > height[rb as int] { height[ra as int] } else { height[rb as int] + 1 };
            self.root = Ghost(new_root);
            self.height = Ghost(height.update(ra as int, hr));
            if hr > self.max_height@ {
                self.max_height = Ghost(hr);
            }
            assert forall|r: int| 0 <= r < n && #[trigger] self.parent@[r] == r implies self.size@[r] == class_of(self.root@, r).len() by {
                if r != ra as int {
                    assert(r != rb as int);
                    assert(class_of(new_root, r) =~= class_of(root, r));
                }
            }
            assert forall|k: int| 0 <= k < n && #[trigger] self.parent@[k] != k implies self.height@[self.parent@[k] as int] > self.height@[k] by {
                if k == rb as int {
                } else if self.parent@[k] == ra {
                    assert(root[k] == ra as int);
                }
            }
        }
    }
}

} // verus!
