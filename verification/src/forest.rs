//! A union-find forest: a partition of the numbers below its size, in which two blocks can be
//! merged.

use vstd::prelude::*;

verus! {

/// The root of the tree that holds `i`.
pub open spec fn root_of(parents: Seq<usize>, i: int) -> int
    decreases i,
{
    if 0 <= i < parents.len() && parents[i] < i {
        root_of(parents, parents[i] as int)
    } else {
        i
    }
}

/// A partition of the numbers below its size.
///
/// Each number points at one that is not larger, and a root at itself.
pub struct Forest {
    pub parents: Vec<usize>,
}

impl Forest {
    /// Whether every number points at one that is not larger.
    pub open spec fn wf(&self) -> bool {
        forall|i: int| 0 <= i < self.parents@.len() ==> #[trigger] self.parents@[i] <= i
    }

    /// How many numbers there are.
    pub open spec fn size(&self) -> nat {
        self.parents@.len()
    }

    /// Whether two numbers are in one block.
    pub open spec fn same(&self, i: int, j: int) -> bool {
        root_of(self.parents@, i) == root_of(self.parents@, j)
    }

    /// The partition of no numbers.
    pub fn new() -> (r: Forest)
        ensures
            r.wf(),
            r.size() == 0,
    {
        Forest { parents: Vec::new() }
    }

    /// Adds a number, in a block of its own.
    pub fn add_one(&mut self) -> (i: usize)
        requires
            old(self).wf(),
        ensures
            final(self).wf(),
            i == old(self).size(),
            final(self).size() == old(self).size() + 1,
            forall|a: int, b: int|
                0 <= a < old(self).size() && 0 <= b < old(self).size() ==> final(self).same(a, b)
                    == old(self).same(a, b),
            forall|a: int|
                0 <= a < old(self).size() ==> !final(self).same(a, i as int) && !final(self).same(
                    i as int,
                    a,
                ),
    {
        let i: usize = self.parents.len();
        let ghost before = self.parents@;
        self.parents.push(i);
        proof {
            assert forall|a: int| 0 <= a < before.len() implies #[trigger] root_of(
                self.parents@,
                a,
            ) == root_of(before, a) && root_of(before, a) <= a by {
                push_keeps_roots(before, i, a);
            }
            assert(root_of(self.parents@, i as int) == i);
        }
        i
    }

    /// The root of the block that holds `i`. The way there is shortened; no block changes.
    pub fn find(&mut self, i: usize) -> (r: usize)
        requires
            old(self).wf(),
            i < old(self).size(),
        ensures
            final(self).wf(),
            final(self).size() == old(self).size(),
            r == root_of(old(self).parents@, i as int),
            r <= i,
            forall|a: int| root_of(final(self).parents@, a) == root_of(old(self).parents@, a),
    {
        let mut current: usize = i;
        loop
            invariant
                self.wf(),
                self.size() == old(self).size(),
                current <= i < self.size(),
                root_of(old(self).parents@, i as int) == root_of(
                    self.parents@,
                    current as int,
                ),
                forall|a: int|
                    root_of(self.parents@, a) == root_of(old(self).parents@, a),
            decreases current,
        {
            let parent: usize = self.parents[current];
            if parent == current {
                return current;
            }
            let grandparent: usize = self.parents[parent];
            let ghost before = self.parents@;
            self.parents.set(current, grandparent);
            proof {
                assert forall|a: int| #[trigger]
                    root_of(self.parents@, a) == root_of(before, a) by {
                    halving_keeps_roots(before, current as int, a);
                }
                assert(root_of(before, current as int) == root_of(before, parent as int));
                assert(root_of(before, parent as int) == root_of(before, grandparent as int));
            }
            current = grandparent;
        }
    }

    /// Merges the blocks that hold `left` and `right`.
    pub fn union(&mut self, left: usize, right: usize)
        requires
            old(self).wf(),
            left < old(self).size(),
            right < old(self).size(),
        ensures
            final(self).wf(),
            final(self).size() == old(self).size(),
            forall|a: int, b: int|
                0 <= a < old(self).size() && 0 <= b < old(self).size() ==> final(self).same(a, b)
                    == (old(self).same(a, b) || (old(self).same(a, left as int) && old(self).same(
                    b,
                    right as int,
                )) || (old(self).same(a, right as int) && old(self).same(b, left as int))),
    {
        let a: usize = self.find(left);
        let b: usize = self.find(right);
        let ghost before = self.parents@;
        proof {
            root_is_root(before, left as int);
            root_is_root(before, right as int);
        }
        if a < b {
            self.parents.set(b, a);
            proof {
                assert forall|k: int| 0 <= k < before.len() implies #[trigger] root_of(
                    self.parents@,
                    k,
                ) == (if root_of(before, k) == b {
                    a as int
                } else {
                    root_of(before, k)
                }) by {
                    linking_moves_roots(before, b as int, a as int, k);
                }
            }
        } else if b < a {
            self.parents.set(a, b);
            proof {
                assert forall|k: int| 0 <= k < before.len() implies #[trigger] root_of(
                    self.parents@,
                    k,
                ) == (if root_of(before, k) == a {
                    b as int
                } else {
                    root_of(before, k)
                }) by {
                    linking_moves_roots(before, a as int, b as int, k);
                }
            }
        }
    }
}

/// A root is a number below the size that points at itself.
proof fn root_is_root(parents: Seq<usize>, i: int)
    requires
        0 <= i < parents.len(),
        forall|k: int| 0 <= k < parents.len() ==> #[trigger] parents[k] <= k,
    ensures
        0 <= root_of(parents, i) <= i,
        parents[root_of(parents, i)] == root_of(parents, i),
    decreases i,
{
    if parents[i] < i {
        root_is_root(parents, parents[i] as int);
    }
}

proof fn push_keeps_roots(before: Seq<usize>, x: usize, a: int)
    requires
        0 <= a < before.len(),
        forall|k: int| 0 <= k < before.len() ==> #[trigger] before[k] <= k,
    ensures
        root_of(before.push(x), a) == root_of(before, a),
        root_of(before, a) <= a,
    decreases a,
{
    if before[a] < a {
        push_keeps_roots(before, x, before[a] as int);
    }
}

proof fn halving_keeps_roots(before: Seq<usize>, c: int, a: int)
    requires
        0 <= c < before.len(),
        before[c] < c,
        forall|k: int| 0 <= k < before.len() ==> #[trigger] before[k] <= k,
    ensures
        root_of(before.update(c, before[before[c] as int]), a) == root_of(before, a),
    decreases a,
{
    let after = before.update(c, before[before[c] as int]);
    if 0 <= a < before.len() && before[a] < a {
        if a == c {
            let p = before[c] as int;
            let g = before[p] as int;
            halving_keeps_roots(before, c, g);
            assert(after[a] == g);
            assert(root_of(after, a) == root_of(after, g));
            assert(root_of(before, a) == root_of(before, p));
            assert(root_of(before, p) == root_of(before, g));
        } else {
            assert(after[a] == before[a]);
            halving_keeps_roots(before, c, before[a] as int);
        }
    }
}

proof fn linking_moves_roots(before: Seq<usize>, from: int, to: int, k: int)
    requires
        0 <= to < from < before.len(),
        before[from] == from,
        before[to] == to,
        0 <= k < before.len(),
        forall|j: int| 0 <= j < before.len() ==> #[trigger] before[j] <= j,
    ensures
        root_of(before.update(from, to as usize), k) == (if root_of(before, k) == from {
            to
        } else {
            root_of(before, k)
        }),
    decreases k,
{
    let after = before.update(from, to as usize);
    if k == from {
        assert(after[k] == to);
        assert(root_of(after, k) == root_of(after, to));
    } else if before[k] < k {
        linking_moves_roots(before, from, to, before[k] as int);
    }
}

} // verus!
