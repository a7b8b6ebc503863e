//! Disjoint-set forest with path compression and union by rank, used to
//! join world-line legs into clusters.

use vstd::prelude::*;
use vstd::arithmetic::power2::{pow2, lemma2_to64, lemma_pow2_unfold, lemma_pow2_strictly_increases};

verus! {

/// Whether `after` is what joining the classes of `left` and `right` makes of
/// `before`, with either of the two representatives kept.
pub open spec fn union_result(before: Seq<nat>, left: int, right: int, after: Seq<nat>) -> bool {
    let l = before[left];
    let r = before[right];
    if l == r {
        after == before
    } else {
        after == merge_classes(before, l, r) || after == merge_classes(before, r, l)
    }
}

/// Number of entries of `roots` equal to `root`.
pub open spec fn class_size(roots: Seq<nat>, root: nat) -> nat
    decreases roots.len(),
{
    if roots.len() == 0 {
        0
    } else {
        class_size(roots.drop_last(), root) + if roots.last() == root { 1nat } else { 0nat }
    }
}

/// The representative sequence after the class of `absorbed` joins the class
/// of `keeper`.
pub open spec fn merge_classes(roots: Seq<nat>, keeper: nat, absorbed: nat) -> Seq<nat> {
    roots.map_values(|root: nat| if root == absorbed { keeper } else { root })
}

proof fn lemma_class_size_bounded(roots: Seq<nat>, root: nat)
    ensures
        class_size(roots, root) <= roots.len(),
    decreases roots.len(),
{
    if roots.len() > 0 {
        lemma_class_size_bounded(roots.drop_last(), root);
    }
}

proof fn lemma_class_size_push(roots: Seq<nat>, value: nat, root: nat)
    ensures
        class_size(roots.push(value), root) == class_size(roots, root) + if value == root {
            1nat
        } else {
            0nat
        },
{
    assert(roots.push(value).drop_last() =~= roots);
}

proof fn lemma_class_size_merge(roots: Seq<nat>, keeper: nat, absorbed: nat, other: nat)
    requires
        keeper != absorbed,
    ensures
        class_size(merge_classes(roots, keeper, absorbed), keeper) == class_size(roots, keeper)
            + class_size(roots, absorbed),
        other != keeper && other != absorbed ==> class_size(
            merge_classes(roots, keeper, absorbed),
            other,
        ) == class_size(roots, other),
    decreases roots.len(),
{
    if roots.len() > 0 {
        let prefix = roots.drop_last();
        lemma_class_size_merge(prefix, keeper, absorbed, other);
        assert(merge_classes(roots, keeper, absorbed).drop_last() =~= merge_classes(
            prefix,
            keeper,
            absorbed,
        ));
    }
}

proof fn lemma_rank_below_64(rank: nat, size: nat)
    requires
        pow2(rank) <= size,
        size <= usize::MAX,
    ensures
        rank < 64,
{
    lemma2_to64();
    if rank >= 64 {
        if rank > 64 {
            lemma_pow2_strictly_increases(64, rank);
        }
        assert(pow2(rank) >= pow2(64));
        assert(usize::MAX < 0x10000000000000000);
    }
}

/// A disjoint-set forest over the elements `0..len()`.
///
/// Each element belongs to exactly one class; `view()` gives the
/// representative of every element, which is itself a member of the class
/// it represents.
pub struct UnionFind {
    parent: Vec<usize>,
    rank: Vec<u8>,
    roots: Ghost<Seq<nat>>,
}

impl View for UnionFind {
    type V = Seq<nat>;

    /// Representative of every element, indexed by element.
    closed spec fn view(&self) -> Seq<nat> {
        self.roots@
    }
}

impl UnionFind {
    /// Rank of an element, which bounds the height of its subtree.
    pub closed spec fn rank_of(&self, element: int) -> nat {
        self.rank@[element] as nat
    }

    /// Internal consistency of the forest with its representative view.
    pub closed spec fn wf(&self) -> bool {
        let n = self.parent@.len();
        let roots = self.roots@;
        &&& self.rank@.len() == n
        &&& roots.len() == n
        &&& forall|i: int| 0 <= i < n ==> #[trigger] self.parent@[i] < n
        &&& forall|i: int| 0 <= i < n ==> #[trigger] roots[i] < n
        &&& forall|i: int| 0 <= i < n ==> roots[#[trigger] roots[i] as int] == roots[i]
        &&& forall|i: int|
            0 <= i < n ==> self.parent@[#[trigger] roots[i] as int] == roots[i]
        &&& forall|i: int|
            0 <= i < n ==> roots[#[trigger] self.parent@[i] as int] == roots[i]
        &&& forall|i: int| 0 <= i < n && #[trigger] self.parent@[i] == i ==> roots[i] == i
        &&& forall|i: int|
            0 <= i < n && #[trigger] self.parent@[i] != i ==> self.rank@[i] < self.rank@[
                self.parent@[i] as int
            ]
        &&& forall|i: int|
            0 <= i < n && #[trigger] roots[i] != i ==> self.rank@[i] < self.rank@[
                roots[i] as int
            ]
        &&& forall|i: int|
            0 <= i < n && #[trigger] roots[i] == i ==> pow2(self.rank@[i] as nat) <= class_size(
                roots,
                i as nat,
            )
    }

    /// Representatives are elements of the forest and represent themselves.
    pub proof fn lemma_representatives(&self)
        requires
            self.wf(),
        ensures
            forall|i: int|
                0 <= i < self@.len() ==> #[trigger] self@[i] < self@.len() && self@[self@[i] as int]
                    == self@[i],
    {
    }

    /// Creates an empty forest.
    pub fn new() -> (forest: Self)
        ensures
            forest.wf(),
            forest@ == Seq::<nat>::empty(),
    {
        UnionFind { parent: Vec::new(), rank: Vec::new(), roots: Ghost(Seq::empty()) }
    }

    /// Adds a new singleton class and returns its element.
    pub fn add(&mut self) -> (element: usize)
        requires
            old(self).wf(),
            old(self)@.len() < usize::MAX,
        ensures
            final(self).wf(),
            element == old(self)@.len(),
            final(self)@ == old(self)@.push(element as nat),
            final(self).rank_of(element as int) == 0,
            forall|i: int|
                0 <= i < old(self)@.len() ==> final(self).rank_of(i) == old(self).rank_of(i),
    {
        let index = self.parent.len();
        let ghost old_roots = self.roots@;
        proof {
            assert forall|r: nat| true implies class_size(old_roots.push(index as nat), r)
                == class_size(old_roots, r) + if index as nat == r { 1nat } else { 0nat } by {
                lemma_class_size_push(old_roots, index as nat, r);
            }
            lemma2_to64();
        }
        self.parent.push(index);
        self.rank.push(0);
        self.roots = Ghost(old_roots.push(index as nat));
        index
    }

    /// Number of elements.
    pub fn len(&self) -> (count: usize)
        requires
            self.wf(),
        ensures
            count == self@.len(),
    {
        self.parent.len()
    }

    /// Returns the representative of `index`, compressing the path to it.
    pub fn find(&mut self, index: usize) -> (root: usize)
        requires
            old(self).wf(),
            index < old(self)@.len(),
        ensures
            final(self).wf(),
            final(self)@ == old(self)@,
            root == old(self)@[index as int],
            forall|i: int|
                0 <= i < old(self)@.len() ==> final(self).rank_of(i) == old(self).rank_of(i),
        decreases 256 - old(self).rank_of(index as int),
    {
        let parent = self.parent[index];
        if parent != index {
            let root = self.find(parent);
            proof {
                assert(self.roots@[index as int] != index);
            }
            self.parent.set(index, root);
            let ghost n = self.parent@.len();
            proof {
                let roots = self.roots@;
                assert forall|i: int|
                    0 <= i < n implies self.parent@[#[trigger] roots[i] as int] == roots[i] by {
                    if roots[i] as int == index as int {
                        assert(roots[index as int] != index);
                        assert(false);
                    }
                }
            }
            root
        } else {
            parent
        }
    }

    /// Joins the classes of `left` and `right`.
    ///
    /// The representative of the class with the larger rank is kept; on a tie
    /// the representative of `left` is kept.
    pub fn union(&mut self, left: usize, right: usize)
        requires
            old(self).wf(),
            left < old(self)@.len(),
            right < old(self)@.len(),
        ensures
            final(self).wf(),
            ({
                let l = old(self)@[left as int];
                let r = old(self)@[right as int];
                if l == r {
                    final(self)@ == old(self)@
                } else if old(self).rank_of(l as int) < old(self).rank_of(r as int) {
                    final(self)@ == merge_classes(old(self)@, r, l)
                } else {
                    final(self)@ == merge_classes(old(self)@, l, r)
                }
            }),
            union_result(old(self)@, left as int, right as int, final(self)@),
    {
        let mut left_root = self.find(left);
        let mut right_root = self.find(right);
        if left_root == right_root {
            return;
        }
        if self.rank[left_root] < self.rank[right_root] {
            let swapped = left_root;
            left_root = right_root;
            right_root = swapped;
        }
        let element_count = self.parent.len();
        let ghost n = self.parent@.len();
        let ghost old_roots = self.roots@;
        let ghost new_roots = merge_classes(old_roots, left_root as nat, right_root as nat);
        proof {
            lemma_class_size_merge(old_roots, left_root as nat, right_root as nat, 0);
            assert forall|r: nat|
                r != left_root && r != right_root implies class_size(new_roots, r) == class_size(
                old_roots,
                r,
            ) by {
                lemma_class_size_merge(old_roots, left_root as nat, right_root as nat, r);
            }
            lemma_class_size_bounded(new_roots, left_root as nat);
        }
        self.parent.set(right_root, left_root);
        if self.rank[left_root] == self.rank[right_root] {
            proof {
                let rank = self.rank@[left_root as int] as nat;
                lemma_pow2_unfold(rank + 1);
                lemma_rank_below_64(rank + 1, class_size(new_roots, left_root as nat));
            }
            let bumped = self.rank[left_root] + 1;
            self.rank.set(left_root, bumped);
        }
        self.roots = Ghost(new_roots);
        proof {
            let parent = self.parent@;
            let rank = self.rank@;
            assert forall|i: int| 0 <= i < n implies #[trigger] new_roots[i] < n by {}
            assert forall|i: int|
                0 <= i < n implies new_roots[#[trigger] new_roots[i] as int] == new_roots[i] by {}
            assert forall|i: int|
                0 <= i < n implies parent[#[trigger] new_roots[i] as int] == new_roots[i] by {}
            assert forall|i: int|
                0 <= i < n implies new_roots[#[trigger] parent[i] as int] == new_roots[i] by {}
            assert forall|i: int|
                0 <= i < n && #[trigger] parent[i] == i implies new_roots[i] == i by {}
            assert forall|i: int|
                0 <= i < n && #[trigger] parent[i] != i implies rank[i] < rank[
                parent[i] as int
            ] by {}
            assert forall|i: int|
                0 <= i < n && #[trigger] new_roots[i] != i implies rank[i] < rank[
                new_roots[i] as int
            ] by {}
            assert forall|i: int|
                0 <= i < n && #[trigger] new_roots[i] == i implies pow2(rank[i] as nat)
                <= class_size(new_roots, i as nat) by {
                if i != left_root {
                    assert(class_size(new_roots, i as nat) == class_size(old_roots, i as nat));
                } else if rank[i] != old(self).rank@[i] {
                    lemma_pow2_unfold(rank[i] as nat);
                }
            }
        }
    }
}

/// Merging the class of `absorbed` into the class of `keeper` puts two
/// elements in one class exactly when they were in one class before, or when
/// one was in the class of `keeper` and the other in the class of `absorbed`.
pub proof fn lemma_merge_joins_exactly(before: Seq<nat>, keeper: nat, absorbed: nat, i: int, j: int)
    requires
        keeper != absorbed,
        0 <= i < before.len(),
        0 <= j < before.len(),
    ensures
        ({
            let after = merge_classes(before, keeper, absorbed);
            (after[i] == after[j]) <==> (before[i] == before[j] || (before[i] == keeper
                && before[j] == absorbed) || (before[i] == absorbed && before[j] == keeper))
        }),
{
}

} // verus!
