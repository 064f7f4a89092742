use vstd::prelude::*;
use vstd::set_lib::{lemma_int_range, lemma_len_subset, set_int_range};

verus! {

/// Connectivity generated by a sequence of undirected links: `x` and `y` are
/// connected when a path of links joins them (every vertex is connected to
/// itself).
pub open spec fn connected(links: Seq<(int, int)>, x: int, y: int) -> bool
    decreases links.len(),
{
    if links.len() == 0 {
        x == y
    } else {
        let earlier = links.drop_last();
        let a = links.last().0;
        let b = links.last().1;
        ||| connected(earlier, x, y)
        ||| (connected(earlier, x, a) && connected(earlier, b, y))
        ||| (connected(earlier, x, b) && connected(earlier, a, y))
    }
}

/// Union-find over `0..len` with union by rank and path compression.
pub struct DisjointSet {
    parent: Vec<usize>,
    rank: Vec<usize>,
    /// Root reached from every element.
    label: Ghost<Seq<int>>,
    /// Successful merges so far.
    merges: Ghost<nat>,
    /// Every link requested so far, in order.
    links: Ghost<Seq<(int, int)>>,
}

impl DisjointSet {
    /// Number of elements.
    pub closed spec fn len(&self) -> nat {
        self.parent@.len()
    }

    /// Links requested so far, in call order.
    pub closed spec fn links(&self) -> Seq<(int, int)> {
        self.links@
    }

    /// Representative of the class holding `x`.
    pub closed spec fn root_of(&self, x: int) -> int {
        self.label@[x]
    }

    /// Distance left between the rank of `x` and the element count; it
    /// shrinks along every parent link.
    pub closed spec fn height_budget(&self, x: int) -> int {
        self.parent@.len() - self.rank@[x]
    }

    closed spec fn roots(&self) -> Set<int> {
        Set::new(|x: int| 0 <= x < self.parent@.len() && self.label@[x] == x)
    }

    /// Structural invariant of the forest.
    pub closed spec fn wf(&self) -> bool {
        let n = self.parent@.len();
        &&& self.rank@.len() == n
        &&& self.label@.len() == n
        &&& forall|x: int| 0 <= x < n ==> (#[trigger] self.parent@[x]) < n
        &&& forall|x: int| 0 <= x < n ==> 0 <= #[trigger] self.label@[x] < n
        &&& forall|x: int|
            0 <= x < n ==> self.parent@[#[trigger] self.label@[x] as int] == self.label@[x]
        &&& forall|x: int|
            0 <= x < n ==> self.label@[#[trigger] self.parent@[x] as int] == self.label@[x]
        &&& forall|x: int| 0 <= x < n && #[trigger] self.parent@[x] == x ==> self.label@[x] == x
        &&& forall|x: int|
            0 <= x < n && #[trigger] self.parent@[x] != x ==> self.rank@[x]
                < self.rank@[self.parent@[x] as int]
        &&& forall|x: int|
            0 <= x < n && #[trigger] self.label@[x] != x ==> self.rank@[x]
                < self.rank@[self.label@[x]]
        &&& forall|x: int| 0 <= x < n ==> #[trigger] self.rank@[x] <= self.merges@
        &&& self.roots().finite()
        &&& self.merges@ + self.roots().len() == n
        &&& forall|i: int|
            0 <= i < self.links@.len() ==> 0 <= (#[trigger] self.links@[i]).0 < n && 0
                <= self.links@[i].1 < n
        &&& forall|x: int, y: int|
            0 <= x < n && 0 <= y < n ==> (self.label@[x] == self.label@[y] <==> connected(
                self.links@,
                x,
                y,
            ))
    }

    proof fn lemma_roots_finite(&self)
        ensures
            self.roots().finite(),
            self.roots().len() <= self.parent@.len(),
    {
        let n = self.parent@.len() as int;
        lemma_int_range(0, n);
        assert(self.roots().subset_of(set_int_range(0, n)));
        lemma_len_subset(self.roots(), set_int_range(0, n));
    }

    /// Roots coincide exactly when the elements are connected by the links.
    pub proof fn lemma_root_of_iff_connected(&self, x: int, y: int)
        requires
            self.wf(),
            0 <= x < self.len(),
            0 <= y < self.len(),
        ensures
            0 <= self.root_of(x) < self.len(),
            (self.root_of(x) == self.root_of(y)) == connected(self.links(), x, y),
    {
    }

    /// Creates `length` singleton classes.
    pub fn new(length: usize) -> (set: Self)
        ensures
            set.wf(),
            set.len() == length,
            set.links() == Seq::<(int, int)>::empty(),
    {
        let mut parent: Vec<usize> = Vec::new();
        let mut rank: Vec<usize> = Vec::new();
        let mut index: usize = 0;
        while index < length
            invariant
                index <= length,
                parent@.len() == index,
                rank@.len() == index,
                forall|x: int| 0 <= x < index ==> #[trigger] parent@[x] == x,
                forall|x: int| 0 <= x < index ==> #[trigger] rank@[x] == 0,
            decreases length - index,
        {
            parent.push(index);
            rank.push(0);
            index = index + 1;
        }
        let ghost label = Seq::new(length as nat, |x: int| x);
        let set = DisjointSet {
            parent,
            rank,
            label: Ghost(label),
            merges: Ghost(0),
            links: Ghost(Seq::empty()),
        };
        proof {
            lemma_int_range(0, length as int);
            assert(set.roots() =~= set_int_range(0, length as int));
        }
        set
    }

    /// Returns the representative of `value`, compressing the path to it.
    pub fn find(&mut self, value: usize) -> (root: usize)
        requires
            old(self).wf(),
            value < old(self).len(),
        ensures
            final(self).wf(),
            final(self).len() == old(self).len(),
            final(self).links() == old(self).links(),
            forall|x: int| 0 <= x < old(self).len() ==> #[trigger] final(self).root_of(x) == old(self).root_of(x),
            root as int == old(self).root_of(value as int),
            root < old(self).len(),
        decreases old(self).height_budget(value as int),
    {
        let parent = self.parent[value];
        if parent == value {
            return value;
        }
        proof {
            assert(self.rank@[value as int] < self.rank@[parent as int]);
            assert(self.rank@[parent as int] <= self.merges@);
            self.lemma_roots_finite();
        }
        let ghost before = *self;
        let root = self.find(parent);
        proof {
            assert(self.root_of(parent as int) == before.root_of(parent as int));
            assert(self.root_of(value as int) == before.root_of(value as int));
            assert(self.label@ =~= before.label@) by {
                assert forall|x: int| 0 <= x < self.label@.len() implies self.label@[x]
                    == before.label@[x] by {
                    assert(self.root_of(x) == before.root_of(x));
                }
            }
        }
        self.parent.set(value, root);
        proof {
            let n = self.parent@.len();
            assert forall|x: int| 0 <= x < n implies self.label@[#[trigger] self.parent@[x] as int]
                == self.label@[x] by {
                if x == value as int {
                    assert(self.parent@[self.label@[x] as int] == self.label@[x]);
                }
            }
            assert forall|x: int| 0 <= x < n && #[trigger] self.parent@[x] != x implies self.rank@[x]
                < self.rank@[self.parent@[x] as int] by {
                if x == value as int {
                    if self.label@[x] == x {
                        assert(self.parent@[self.label@[x] as int] == self.label@[x]);
                    }
                }
            }
            assert forall|x: int|
                0 <= x < n implies self.parent@[#[trigger] self.label@[x] as int] == self.label@[x] by {
                if self.label@[x] == value as int {
                    assert(self.label@[value as int] == value as int);
                }
            }
            assert(self.roots() =~= old(self).roots());
        }
        root
    }

    /// Merges the classes of `left` and `right`.
    pub fn union(&mut self, left: usize, right: usize)
        requires
            old(self).wf(),
            left < old(self).len(),
            right < old(self).len(),
        ensures
            final(self).wf(),
            final(self).len() == old(self).len(),
            final(self).links() == old(self).links().push((left as int, right as int)),
    {
        let ghost start = *self;
        let left_root = self.find(left);
        let right_root = self.find(right);
        let ghost mid = *self;
        proof {
            assert(mid.label@ =~= start.label@) by {
                assert forall|x: int| 0 <= x < mid.label@.len() implies mid.label@[x]
                    == start.label@[x] by {
                    assert(mid.root_of(x) == start.root_of(x));
                }
            }
        }
        if left_root == right_root {
            proof {
                self.links@ = self.links@.push((left as int, right as int));
                lemma_link_within_class(mid, *self, left as int, right as int);
            }
            return;
        }
        if self.rank[left_root] < self.rank[right_root] {
            self.parent.set(left_root, right_root);
            proof {
                self.label@ = relabel(mid.label@, left_root as int, right_root as int);
                self.merges@ = mid.merges@ + 1;
                self.links@ = mid.links@.push((left as int, right as int));
                lemma_merge(mid, *self, left_root as int, right_root as int, left as int, right as int);
            }
        } else if self.rank[right_root] < self.rank[left_root] {
            self.parent.set(right_root, left_root);
            proof {
                self.label@ = relabel(mid.label@, right_root as int, left_root as int);
                self.merges@ = mid.merges@ + 1;
                self.links@ = mid.links@.push((left as int, right as int));
                lemma_merge(mid, *self, right_root as int, left_root as int, left as int, right as int);
            }
        } else {
            proof {
                assert(self.rank@[left_root as int] <= self.merges@);
                mid.lemma_roots_finite();
                assert(mid.roots().contains(left_root as int));
                assert(mid.roots().contains(right_root as int));
                assert(mid.roots().remove(left_root as int).contains(right_root as int));
                assert(mid.roots().len() >= 2);
            }
            let count = self.parent.len();
            proof {
                assert(self.rank@[left_root as int] + 2 <= count);
            }
            self.parent.set(right_root, left_root);
            let raised = self.rank[left_root] + 1;
            self.rank.set(left_root, raised);
            proof {
                self.label@ = relabel(mid.label@, right_root as int, left_root as int);
                self.merges@ = mid.merges@ + 1;
                self.links@ = mid.links@.push((left as int, right as int));
                lemma_merge(mid, *self, right_root as int, left_root as int, left as int, right as int);
            }
        }
    }

}

/// Labels after every element of class `gone` joins class `kept`.
pub open spec fn relabel(label: Seq<int>, gone: int, kept: int) -> Seq<int> {
    Seq::new(label.len(), |x: int| if label[x] == gone { kept } else { label[x] })
}

/// After root `gone` is attached below root `kept`, the relabelled forest is
/// well formed.
proof fn lemma_merge(mid: DisjointSet, after: DisjointSet, gone: int, kept: int, left: int, right: int)
    requires
        mid.wf(),
        0 <= left < mid.len(),
        0 <= right < mid.len(),
        gone != kept,
        (gone == mid.label@[left] && kept == mid.label@[right]) || (gone == mid.label@[right]
            && kept == mid.label@[left]),
        after.parent@ == mid.parent@.update(gone, kept as usize),
        after.rank@.len() == mid.rank@.len(),
        forall|x: int| 0 <= x < mid.len() && x != kept ==> after.rank@[x] == mid.rank@[x],
        mid.rank@[kept] <= after.rank@[kept] <= mid.merges@ + 1,
        mid.rank@[gone] < after.rank@[kept],
        after.label@ == relabel(mid.label@, gone, kept),
        after.merges@ == mid.merges@ + 1,
        after.links@ == mid.links@.push((left, right)),
    ensures
        after.wf(),
{
    let n = mid.len() as int;
    let l = mid.label@;
    let l2 = after.label@;
    assert(l[kept] == kept);
    assert(l[gone] == gone);
    assert forall|x: int| 0 <= x < n implies after.parent@[#[trigger] l2[x] as int] == l2[x] by {
        if l[x] != gone {
            assert(mid.parent@[l[x] as int] == l[x]);
        }
    }
    assert forall|x: int| 0 <= x < n implies l2[#[trigger] after.parent@[x] as int] == l2[x] by {
        if x != gone {
            assert(l[mid.parent@[x] as int] == l[x]);
        }
    }
    assert forall|x: int| 0 <= x < n && #[trigger] after.parent@[x] == x implies l2[x] == x by {
        assert(mid.parent@[x] == x);
    }
    assert forall|x: int| 0 <= x < n && #[trigger] after.parent@[x] != x implies after.rank@[x]
        < after.rank@[after.parent@[x] as int] by {
        if x != gone {
            assert(mid.parent@[x] != x);
            assert(mid.rank@[x] < mid.rank@[mid.parent@[x] as int]);
        }
    }
    assert forall|x: int| 0 <= x < n && #[trigger] l2[x] != x implies after.rank@[x]
        < after.rank@[l2[x]] by {
        if l[x] == gone {
            if x != gone {
                assert(mid.rank@[x] < mid.rank@[gone]);
            }
        } else {
            assert(l[x] != x);
            assert(mid.rank@[x] < mid.rank@[l[x]]);
        }
    }
    assert forall|x: int| 0 <= x < n implies #[trigger] after.rank@[x] <= after.merges@ by {
        assert(mid.rank@[x] <= mid.merges@);
    }
    mid.lemma_roots_finite();
    assert(after.roots() =~= mid.roots().remove(gone));
    assert(mid.roots().contains(gone));
    assert(after.links@.drop_last() =~= mid.links@);
    assert forall|x: int, y: int| 0 <= x < n && 0 <= y < n implies (l2[x] == l2[y]
        <==> connected(after.links@, x, y)) by {
        assert(l[left] == l[gone] || l[left] == l[kept]);
        assert(connected(mid.links@, x, y) == (l[x] == l[y]));
        assert(connected(mid.links@, x, left) == (l[x] == l[left]));
        assert(connected(mid.links@, right, y) == (l[right] == l[y]));
        assert(connected(mid.links@, x, right) == (l[x] == l[right]));
        assert(connected(mid.links@, left, y) == (l[left] == l[y]));
    }
}

/// A link between two elements already in one class leaves the classes as they were.
proof fn lemma_link_within_class(before: DisjointSet, after: DisjointSet, left: int, right: int)
    requires
        before.wf(),
        0 <= left < before.len(),
        0 <= right < before.len(),
        before.label@[left] == before.label@[right],
        after.parent@ == before.parent@,
        after.rank@ == before.rank@,
        after.label@ == before.label@,
        after.merges@ == before.merges@,
        after.links@ == before.links@.push((left, right)),
    ensures
        after.wf(),
{
    let n = before.len() as int;
    assert(after.links@.drop_last() =~= before.links@);
    assert forall|x: int, y: int| 0 <= x < n && 0 <= y < n implies (after.label@[x]
        == after.label@[y] <==> connected(after.links@, x, y)) by {
        assert(connected(before.links@, left, right));
        assert(connected(before.links@, x, y) == (before.label@[x] == before.label@[y]));
        assert(connected(before.links@, x, left) == (before.label@[x] == before.label@[left]));
        assert(connected(before.links@, right, y) == (before.label@[right] == before.label@[y]));
        assert(connected(before.links@, x, right) == (before.label@[x] == before.label@[right]));
        assert(connected(before.links@, left, y) == (before.label@[left] == before.label@[y]));
    }
    assert(after.roots() =~= before.roots());
}

} // verus!
