//! In-place heap sort over a slice of integers.
use vstd::prelude::*;
use vstd::seq_lib::*;

verus! {

broadcast use {vstd::seq_lib::group_to_multiset_ensures, vstd::multiset::group_multiset_axioms};

/// Position of a node's parent in the array layout of a binary tree.
pub open spec fn parent_of(j: int) -> int {
    (j - 1) / 2
}

/// Position `j` lies in the subtree rooted at position `r`.
pub open spec fn in_subtree(j: int, r: int) -> bool
    decreases j,
{
    if j < r || j < 0 {
        false
    } else if j == r {
        true
    } else if j == 0 {
        false
    } else {
        in_subtree(parent_of(j), r)
    }
}

/// Within the first `n` positions, every node of the subtree rooted at `r`
/// other than `r` is at most its parent: the subtree is a max heap.
pub open spec fn heap_at(a: Seq<i32>, n: int, r: int) -> bool {
    forall|j: int|
        #![trigger in_subtree(j, r), a[j]]
        0 < j < n && j != r && in_subtree(j, r) ==> a[parent_of(j)] >= a[j]
}

/// Within the first `n` positions, the subtree rooted at `r` holds nothing
/// above `v`.
pub open spec fn subtree_at_most(a: Seq<i32>, n: int, r: int, v: i32) -> bool {
    forall|k: int| #![trigger in_subtree(k, r), a[k]] 0 <= k < n && in_subtree(k, r) ==> a[k] <= v
}

/// The sequence is in ascending order.
pub open spec fn sorted(s: Seq<i32>) -> bool {
    forall|i: int, j: int| 0 <= i <= j < s.len() ==> s[i] <= s[j]
}

// NOTE these indexes gave me trouble.
// They were a lot easier to think over for a
// 1-based array.
fn left_child(node: usize) -> (r: usize)
    requires
        node <= (usize::MAX - 1) / 2,
    ensures
        r == 2 * node + 1,
{
    (2 * node) + 1
}

fn right_child(node: usize) -> (r: usize)
    requires
        node <= (usize::MAX - 2) / 2,
    ensures
        r == 2 * node + 2,
{
    (2 * node) + 2
}

fn parent(node: usize) -> (r: usize)
    requires
        node >= 1,
    ensures
        r == parent_of(node as int),
{
    (node - 1) / 2
}

/// Both children of a node have it as their parent, the right child right
/// after the left one.
pub proof fn lemma_children_parent(n: int)
    requires
        0 <= n,
    ensures
        parent_of(2 * n + 1) == n,
        parent_of(2 * n + 2) == n,
        2 * n + 2 == (2 * n + 1) + 1,
        in_subtree(2 * n + 1, n),
        in_subtree(2 * n + 2, n),
{
    assert(in_subtree(n, n));
}

/// A node's parent comes before it.
proof fn lemma_parent_before(j: int)
    requires
        j > 0,
    ensures
        0 <= parent_of(j) < j,
{
}

/// A subtree of a subtree is a subtree.
proof fn lemma_subtree_trans(j: int, k: int, r: int)
    requires
        in_subtree(j, k),
        in_subtree(k, r),
    ensures
        in_subtree(j, r),
    decreases j,
{
    if j != k {
        lemma_parent_before(j);
        lemma_subtree_trans(parent_of(j), k, r);
    }
}

/// Two subtrees that share a position are nested, the later root inside
/// the subtree of the earlier one.
proof fn lemma_subtree_nested(j: int, r1: int, r2: int)
    requires
        in_subtree(j, r1),
        in_subtree(j, r2),
        r1 <= r2,
    ensures
        in_subtree(r2, r1),
    decreases j,
{
    if j != r2 {
        lemma_parent_before(j);
        lemma_subtree_nested(parent_of(j), r1, r2);
    }
}

/// Below its root, a subtree is the subtree of one of the root's children.
proof fn lemma_subtree_of_child(j: int, r: int)
    requires
        in_subtree(j, r),
        j != r,
        0 <= r,
    ensures
        in_subtree(j, 2 * r + 1) || in_subtree(j, 2 * r + 2),
        !(in_subtree(j, 2 * r + 1) && in_subtree(j, 2 * r + 2)),
        j >= 2 * r + 1,
    decreases j,
{
    lemma_parent_before(j);
    let p = parent_of(j);
    if p != r {
        lemma_subtree_of_child(p, r);
        if in_subtree(p, 2 * r + 1) {
            assert(in_subtree(j, 2 * r + 1));
        } else {
            assert(in_subtree(j, 2 * r + 2));
        }
    } else {
        assert(j == 2 * r + 1 || j == 2 * r + 2);
        assert(in_subtree(j, j));
    }
    lemma_children_parent(r);
    if in_subtree(j, 2 * r + 1) && in_subtree(j, 2 * r + 2) {
        lemma_subtree_nested(j, 2 * r + 1, 2 * r + 2);
        assert(!in_subtree(r, 2 * r + 1));
        assert(in_subtree(2 * r + 2, 2 * r + 1) == in_subtree(r, 2 * r + 1));
    }
}

/// Every position lies in the subtree of the root.
proof fn lemma_in_root_subtree(j: int)
    requires
        0 <= j,
    ensures
        in_subtree(j, 0),
    decreases j,
{
    if j > 0 {
        lemma_parent_before(j);
        lemma_in_root_subtree(parent_of(j));
    }
}

/// The root of a max heap is its greatest value.
proof fn lemma_root_is_max(a: Seq<i32>, n: int, r: int, k: int)
    requires
        heap_at(a, n, r),
        in_subtree(k, r),
        0 <= k < n,
        n <= a.len(),
    ensures
        a[k] <= a[r],
    decreases k,
{
    if k != r {
        lemma_parent_before(k);
        assert(a[parent_of(k)] >= a[k]);
        lemma_root_is_max(a, n, r, parent_of(k));
    }
}

/// A subtree of a max heap is a max heap.
proof fn lemma_heap_at_inner(a: Seq<i32>, n: int, r: int, k: int)
    requires
        heap_at(a, n, r),
        in_subtree(k, r),
    ensures
        heap_at(a, n, k),
{
    assert forall|j: int| 0 < j < n && j != k && in_subtree(j, k) implies a[parent_of(j)] >= a[j] by {
        lemma_subtree_trans(j, k, r);
    }
}

/// A max heap stays one where none of its values change.
proof fn lemma_heap_at_frame(a: Seq<i32>, b: Seq<i32>, n: int, r: int)
    requires
        heap_at(a, n, r),
        forall|i: int| 0 <= i < n && in_subtree(i, r) ==> #[trigger] b[i] == a[i],
    ensures
        heap_at(b, n, r),
{
    assert forall|j: int| 0 < j < n && j != r && in_subtree(j, r) implies b[parent_of(j)] >= b[j] by {
        lemma_parent_before(j);
        assert(in_subtree(parent_of(j), r));
        assert(b[parent_of(j)] == a[parent_of(j)]);
        assert(b[j] == a[j]);
    }
}

/// A value of a rearranged range is a value of the range it was rearranged from.
proof fn lemma_same_multiset_bound(s: Seq<i32>, t: Seq<i32>, bound: i32)
    requires
        s.to_multiset() == t.to_multiset(),
        forall|i: int| 0 <= i < s.len() ==> s[i] <= bound,
    ensures
        forall|i: int| 0 <= i < t.len() ==> t[i] <= bound,
{
    assert forall|i: int| 0 <= i < t.len() implies t[i] <= bound by {
        let v = t[i];
        assert(t.contains(v));
        to_multiset_contains(t, v);
        to_multiset_contains(s, v);
        let k = s.index_of(v);
    }
}

/// Exchanging two positions keeps the multiset.
proof fn lemma_swap_multiset(s: Seq<i32>, i: int, j: int)
    requires
        0 <= i < s.len(),
        0 <= j < s.len(),
    ensures
        s.update(i, s[j]).update(j, s[i]).to_multiset() == s.to_multiset(),
{
    broadcast use vstd::multiset::group_multiset_properties;

    to_multiset_update(s, i, s[j]);
    to_multiset_update(s.update(i, s[j]), j, s[i]);
    assert(s.update(i, s[j]).update(j, s[i]).to_multiset() =~= s.to_multiset());
}

/// Splitting a sequence at `k` splits its multiset.
proof fn lemma_split_multiset(s: Seq<i32>, k: int)
    requires
        0 <= k <= s.len(),
    ensures
        s.to_multiset() == s.subrange(0, k).to_multiset().add(
            s.subrange(k, s.len() as int).to_multiset(),
        ),
{
    lemma_multiset_commutative(s.subrange(0, k), s.subrange(k, s.len() as int));
    assert(s.subrange(0, k) + s.subrange(k, s.len() as int) =~= s);
}

/// The two child subtrees of a node hold max heaps, its value is at least
/// those of its children, so its own subtree holds one.
proof fn lemma_heap_at_join(a: Seq<i32>, n: int, node: int)
    requires
        0 <= node,
        n <= a.len(),
        heap_at(a, n, 2 * node + 1),
        heap_at(a, n, 2 * node + 2),
        2 * node + 1 < n ==> a[node] >= a[2 * node + 1],
        2 * node + 2 < n ==> a[node] >= a[2 * node + 2],
    ensures
        heap_at(a, n, node),
{
    lemma_children_parent(node);
    assert forall|j: int| 0 < j < n && j != node && in_subtree(j, node) implies a[parent_of(j)]
        >= a[j] by {
        lemma_subtree_of_child(j, node);
        if in_subtree(j, 2 * node + 1) && j != 2 * node + 1 {
            assert(a[parent_of(j)] >= a[j]);
        } else if in_subtree(j, 2 * node + 2) && j != 2 * node + 2 {
            assert(a[parent_of(j)] >= a[j]);
        }
    }
}

/// Once a node has taken the value of its larger child `c`, the subtrees
/// below `c` are still max heaps.
proof fn lemma_sift_down_ready(a: Seq<i32>, b: Seq<i32>, n: int, node: int, c: int)
    requires
        0 <= node < c < n <= a.len(),
        c == 2 * node + 1 || c == 2 * node + 2,
        heap_at(a, n, c),
        b == a.update(node, a[c]).update(c, a[node]),
    ensures
        heap_at(b, n, 2 * c + 1),
        heap_at(b, n, 2 * c + 2),
{
    lemma_children_parent(c);
    lemma_heap_at_inner(a, n, c, 2 * c + 1);
    lemma_heap_at_inner(a, n, c, 2 * c + 2);
    lemma_heap_at_frame(a, b, n, 2 * c + 1);
    lemma_heap_at_frame(a, b, n, 2 * c + 2);
}

/// Sifting the value down from the larger child `c` finishes the sift at
/// `node`.
proof fn lemma_sift_down_done(
    a: Seq<i32>,
    b: Seq<i32>,
    f: Seq<i32>,
    n: int,
    node: int,
    c: int,
    o: int,
)
    requires
        0 <= node < c < n <= a.len(),
        f.len() == a.len(),
        (c == 2 * node + 1 && o == 2 * node + 2) || (c == 2 * node + 2 && o == 2 * node + 1),
        a[c] > a[node],
        o < n ==> a[c] >= a[o],
        heap_at(a, n, 2 * node + 1),
        heap_at(a, n, 2 * node + 2),
        b == a.update(node, a[c]).update(c, a[node]),
        heap_at(f, n, c),
        forall|i: int|
            0 <= i < a.len() && !(i < n && in_subtree(i, c)) ==> #[trigger] f[i] == b[i],
        forall|v: i32| #[trigger] subtree_at_most(b, n, c, v) ==> subtree_at_most(f, n, c, v),
    ensures
        heap_at(f, n, node),
        forall|i: int|
            0 <= i < a.len() && !(i < n && in_subtree(i, node)) ==> #[trigger] f[i] == a[i],
        forall|v: i32| #[trigger] subtree_at_most(a, n, node, v) ==> subtree_at_most(f, n, node, v),
{
    lemma_children_parent(node);
    // The larger child's subtree now holds nothing above the value moved up.
    assert(subtree_at_most(b, n, c, a[c])) by {
        assert forall|k: int| 0 <= k < n && in_subtree(k, c) implies b[k] <= a[c] by {
            if k != c {
                lemma_root_is_max(a, n, c, k);
            }
        }
    }
    assert(f[c] <= a[c]);
    assert(in_subtree(c, c));
    assert forall|j: int| 0 < j < n && j != node && in_subtree(j, node) implies f[parent_of(j)]
        >= f[j] by {
        lemma_subtree_of_child(j, node);
        if in_subtree(j, c) {
            if j == c {
                assert(f[node] == b[node]);
            } else {
                assert(f[parent_of(j)] >= f[j]);
            }
        } else {
            assert(in_subtree(j, o));
            assert(f[j] == a[j]);
            if j == o {
                assert(f[node] == b[node]);
            } else {
                lemma_parent_before(j);
                assert(in_subtree(parent_of(j), o));
                if in_subtree(parent_of(j), c) {
                    lemma_subtree_nested(parent_of(j), c, o);
                    lemma_subtree_nested(parent_of(j), o, c);
                }
                assert(f[parent_of(j)] == a[parent_of(j)]);
                assert(a[parent_of(j)] >= a[j]);
            }
        }
    }
    assert forall|i: int| 0 <= i < a.len() && !(i < n && in_subtree(i, node)) implies #[trigger] f[i]
        == a[i] by {
        if i < n && in_subtree(i, c) {
            lemma_subtree_trans(i, c, node);
        }
    }
    assert forall|v: i32| #[trigger] subtree_at_most(a, n, node, v) implies subtree_at_most(
        f,
        n,
        node,
        v,
    ) by {
        assert forall|k: int| 0 <= k < n && in_subtree(k, c) implies b[k] <= v by {
            lemma_subtree_trans(k, c, node);
            assert(in_subtree(node, node));
        }
        assert(subtree_at_most(b, n, c, v));
        assert forall|k: int| 0 <= k < n && in_subtree(k, node) implies f[k] <= v by {
            if k != node && !in_subtree(k, c) {
                lemma_subtree_of_child(k, node);
            }
        }
    }
}

pub struct MaxHeap<'a> {
    heap_len: usize,
    array: &'a mut [i32],
}

impl<'a> MaxHeap<'a> {
    /// The values of the array, in order.
    pub closed spec fn elements(&self) -> Seq<i32> {
        self.array@
    }

    /// How many leading positions of the array form the heap.
    pub closed spec fn size(&self) -> nat {
        self.heap_len as nat
    }

    /// The heap lies within the array.
    pub open spec fn wf(&self) -> bool {
        self.size() <= self.elements().len()
    }

    pub fn new(array: &'a mut [i32]) -> (heap: Self)
        ensures
            heap.elements() == old(array)@,
            heap.size() == old(array)@.len(),
            heap.wf(),
    {
        Self { heap_len: array.len(), array: array }
    }

    pub fn len(&self) -> (n: usize)
        ensures
            n == self.elements().len(),
    {
        self.array.len()
    }

    fn getter(&self, index: usize) -> (r: Option<i32>)
        requires
            self.wf(),
        ensures
            r == (if index < self.size() {
                Some(self.elements()[index as int])
            } else {
                None::<i32>
            }),
    {
        if index < self.heap_len {
            Some(self.array[index])
        } else {
            None
        }
    }

    fn exchange(&mut self, i: usize, j: usize)
        requires
            i < old(self).elements().len(),
            j < old(self).elements().len(),
        ensures
            final(self).elements() == old(self).elements().update(
                i as int,
                old(self).elements()[j as int],
            ).update(j as int, old(self).elements()[i as int]),
            final(self).size() == old(self).size(),
    {
        let a = self.array[i];
        let b = self.array[j];
        self.array[i] = b;
        self.array[j] = a;
    }

    /// `max_heapify` takes a subtree starting at `node` and transforms it
    /// into a max heap.
    /// `max_heapify` assumes as an invariant that the left and right sub-trees
    /// of `node` are max heaps.
    ///
    /// This is a recursive function that essentially pushes the value of `node`
    /// down the heap tree and the biggest value in the heap becomes the
    /// root.
    fn max_heapify(&mut self, node: usize)
        requires
            old(self).wf(),
            node < old(self).size(),
            heap_at(old(self).elements(), old(self).size() as int, 2 * node + 1),
            heap_at(old(self).elements(), old(self).size() as int, 2 * node + 2),
        ensures
            final(self).wf(),
            final(self).size() == old(self).size(),
            final(self).elements().len() == old(self).elements().len(),
            heap_at(final(self).elements(), final(self).size() as int, node as int),
            final(self).elements().to_multiset() == old(self).elements().to_multiset(),
            forall|i: int|
                0 <= i < old(self).elements().len() && !(i < old(self).size() && in_subtree(
                    i,
                    node as int,
                )) ==> #[trigger] final(self).elements()[i] == old(self).elements()[i],
            forall|v: i32|
                #[trigger] subtree_at_most(old(self).elements(), old(self).size() as int, node as int, v)
                    ==> subtree_at_most(final(self).elements(), old(self).size() as int, node as int, v),
        decreases old(self).size() - node,
    {
        let ghost a = self.elements();
        let ghost n = self.size() as int;
        let current = self.array[node];
        // Love this. An elegant way to avoid complicating the ifs.
        let right = if node <= (usize::MAX - 2) / 2 {
            self.getter(right_child(node)).unwrap_or(i32::MIN)
        } else {
            i32::MIN
        };
        let left = if node <= (usize::MAX - 1) / 2 {
            self.getter(left_child(node)).unwrap_or(i32::MIN)
        } else {
            i32::MIN
        };
        let ghost l = 2 * node + 1;
        let ghost r = 2 * node + 2;
        assert(l < n ==> left == a[l]);
        assert(r < n ==> right == a[r]);

        if right > current && right > left {
            let right_index = right_child(node);
            self.exchange(node, right_index);
            let ghost b = self.elements();
            proof {
                lemma_swap_multiset(a, node as int, right_index as int);
                lemma_sift_down_ready(a, b, n, node as int, right_index as int);
            }
            self.max_heapify(right_index);
            proof {
                lemma_sift_down_done(a, b, self.elements(), n, node as int, r, l);
            }
        }
        // NOTE: If left and right are the same, left would bubble up and
        // array[parent(i)] == array[i].
        //
        // This scenario does not violate the heap property because
        // the heap property acconts for parent equality.
        // eg. for a max heap, parent(i) >= i. so it would beok
         else if left > current {
            let left_index = left_child(node);
            self.exchange(node, left_index);
            let ghost b = self.elements();
            proof {
                lemma_swap_multiset(a, node as int, left_index as int);
                lemma_sift_down_ready(a, b, n, node as int, left_index as int);
            }
            self.max_heapify(left_index);
            proof {
                lemma_sift_down_done(a, b, self.elements(), n, node as int, l, r);
            }
        } else {
            proof {
                lemma_heap_at_join(a, n, node as int);
            }
        }
    }

    /// Recursively sorts the heap, bubbling
    /// the biggest value to the end of the array.
    ///
    /// Assumes the heap is properly formed.
    fn sort_recursion(&mut self)
        requires
            old(self).wf(),
            heap_at(old(self).elements(), old(self).size() as int, 0),
        ensures
            final(self).wf(),
            final(self).size() == if old(self).size() > 1 {
                1
            } else {
                old(self).size()
            },
            final(self).elements().len() == old(self).elements().len(),
            sorted(final(self).elements().subrange(0, old(self).size() as int)),
            final(self).elements().subrange(0, old(self).size() as int).to_multiset()
                == old(self).elements().subrange(0, old(self).size() as int).to_multiset(),
            forall|i: int|
                old(self).size() <= i < old(self).elements().len()
                    ==> #[trigger] final(self).elements()[i] == old(self).elements()[i],
        decreases old(self).size(),
    {
        if self.heap_len > 1 {
            let ghost a = self.elements();
            let ghost n = self.size() as int;
            let tail_index = self.heap_len - 1;
            let head = self.array[0];
            let tail = self.array[tail_index];
            self.array[0] = tail;
            self.array[tail_index] = head;
            self.heap_len = tail_index;
            let ghost b = self.elements();
            let ghost m = n - 1;
            proof {
                assert(b =~= a.update(0, a[n - 1]).update(n - 1, a[0]));
                lemma_swap_multiset(a, 0, n - 1);
                lemma_children_parent(0);
                lemma_heap_at_inner(a, n, 0, 1);
                lemma_heap_at_inner(a, n, 0, 2);
                lemma_heap_at_frame(a, b, m, 1);
                lemma_heap_at_frame(a, b, m, 2);
                assert forall|k: int| 0 <= k < m && in_subtree(k, 0) implies b[k] <= head by {
                    lemma_in_root_subtree(n - 1);
                    lemma_root_is_max(a, n, 0, n - 1);
                    lemma_root_is_max(a, n, 0, k);
                }
                assert(subtree_at_most(b, m, 0, head));
            }
            self.max_heapify(0);
            let ghost f = self.elements();
            proof {
                assert forall|k: int| 0 <= k < m implies f[k] <= head by {
                    lemma_in_root_subtree(k);
                }
            }
            self.sort_recursion();
            proof {
                let g = self.elements();
                let fh = f.subrange(0, m);
                let gh = g.subrange(0, m);
                lemma_same_multiset_bound(fh, gh, head);
                assert(f[m] == head);
                assert(g[m] == head);
                assert forall|i: int, j: int| 0 <= i <= j < n implies g.subrange(0, n)[i]
                    <= g.subrange(0, n)[j] by {
                    if j < m {
                        assert(gh[i] <= gh[j]);
                    } else if i < m {
                        assert(gh[i] <= head);
                    }
                }
                assert(g.subrange(0, n) =~= gh.push(head));
                assert(f.subrange(0, n) =~= fh.push(head));
                lemma_split_multiset(f, n);
                lemma_split_multiset(a, n);
                assert(f.subrange(n, f.len() as int) =~= a.subrange(n, a.len() as int));
                let tail_ms = a.subrange(n, a.len() as int).to_multiset();
                assert(f.to_multiset() == a.to_multiset());
                assert forall|v: i32| f.subrange(0, n).to_multiset().count(v) == a.subrange(
                    0,
                    n,
                ).to_multiset().count(v) by {
                    assert(f.to_multiset().count(v) == f.subrange(0, n).to_multiset().count(v)
                        + tail_ms.count(v));
                    assert(a.to_multiset().count(v) == a.subrange(0, n).to_multiset().count(v)
                        + tail_ms.count(v));
                }
                assert(f.subrange(0, n).to_multiset() =~= a.subrange(0, n).to_multiset());
            }
        }
    }

    /// Inplace sorts the heap and returns slice to sorted array
    pub fn sort(&mut self) -> (s: &[i32])
        requires
            old(self).wf(),
            old(self).size() == old(self).elements().len(),
        ensures
            s@ == final(self).elements(),
            sorted(s@),
            s@.to_multiset() == old(self).elements().to_multiset(),
    {
        // By starting at the last parent node in the heap
        // it skips `n/2` items in the array, (ie all leaves).
        // This is ok beucase subtrees composed by the leaves
        // are max-heapified by definition.
        let n = self.array.len();
        let ghost start = self.elements();
        if n > 1 {
            let last_leaf = n - 1;
            let last_node = parent(last_leaf);
            let mut i = last_node + 1;
            proof {
                assert forall|k: int| last_node + 1 <= k implies #[trigger] heap_at(
                    self.elements(),
                    n as int,
                    k,
                ) by {
                    assert forall|j: int| 0 < j < n && j != k && in_subtree(j, k) implies false by {
                        lemma_subtree_of_child(j, k);
                    }
                }
            }
            while i > 0
                invariant
                    self.wf(),
                    self.size() == n,
                    self.elements().len() == n,
                    i <= last_node + 1,
                    last_node == parent_of(n - 1),
                    forall|k: int| i <= k ==> #[trigger] heap_at(self.elements(), n as int, k),
                    self.elements().to_multiset() == start.to_multiset(),
                decreases i,
            {
                i = i - 1;
                let ghost before = self.elements();
                proof {
                    assert(heap_at(before, n as int, 2 * i + 1));
                    assert(heap_at(before, n as int, 2 * i + 2));
                }
                self.max_heapify(i);
                proof {
                    let after = self.elements();
                    assert forall|k: int| i <= k implies #[trigger] heap_at(after, n as int, k) by {
                        if k != i {
                            if in_subtree(k, i as int) {
                                lemma_heap_at_inner(after, n as int, i as int, k);
                            } else {
                                assert(heap_at(before, n as int, k));
                                assert forall|j: int| 0 <= j < n && in_subtree(j, k) implies #[trigger] after[j]
                                    == before[j] by {
                                    if in_subtree(j, i as int) {
                                        lemma_subtree_nested(j, i as int, k);
                                    }
                                }
                                lemma_heap_at_frame(before, after, n as int, k);
                            }
                        }
                    }
                }
            }
        }
        let ghost built = self.elements();
        proof {
            if n <= 1 {
                assert(heap_at(built, n as int, 0));
            }
            assert(built.to_multiset() == start.to_multiset());
        }
        self.sort_recursion();
        proof {
            assert(self.elements().subrange(0, n as int) =~= self.elements());
            assert(built.subrange(0, n as int) =~= built);
        }
        &self.array
    }
}

} // verus!
