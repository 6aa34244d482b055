//! Bounding volume hierarchy: a binary tree of boxes built once over the
//! boundable primitives of a scene, used to prune ray intersection tests.
//!
//! The tree refers to primitives by their position in the scene's primitive
//! list; unboundable primitives (planes) must be filtered out by the scene
//! builder before construction. Construction orders the primitives by the
//! minimum corner of their boxes on a randomly drawn axis, splits the ordered
//! list at its midpoint and recurses; a single remaining primitive becomes
//! both children of its node. Every node's box is exactly the union of its
//! children's boxes, so a miss against a node's box soundly prunes the whole
//! subtree.

use vstd::prelude::*;
use crate::aabb::AABB;
use crate::rng::rand_below;

verus! {

/// A boundable primitive as the hierarchy sees it: its position in the
/// scene's primitive list and its bounding box.
#[derive(Clone, Copy, PartialEq, Eq, Structural, Debug)]
pub struct BoundedPrim {
    pub index: usize,
    pub bbox: AABB,
}

/// A node's child: either a primitive or a further subtree.
pub enum BvhChild {
    Prim(BoundedPrim),
    Node(Box<BVHNode>),
}

/// An inner node of the hierarchy: two children and the box enclosing both.
pub struct BVHNode {
    left: BvhChild,
    right: BvhChild,
    bounding_box: AABB,
}

impl BvhChild {
    /// The primitives reachable through this child.
    pub closed spec fn prims(self) -> Set<BoundedPrim>
        decreases self,
    {
        match self {
            BvhChild::Prim(p) => Set::empty().insert(p),
            BvhChild::Node(n) => n.prims(),
        }
    }

    /// The box this child presents to its parent.
    pub closed spec fn spec_bbox(self) -> AABB {
        match self {
            BvhChild::Prim(p) => p.bbox,
            BvhChild::Node(n) => n.bounding_box,
        }
    }

    pub closed spec fn well_formed(self) -> bool
        decreases self,
    {
        match self {
            BvhChild::Prim(p) => true,
            BvhChild::Node(n) => n.well_formed(),
        }
    }

    fn bbox(&self) -> (r: AABB)
        ensures
            r == self.spec_bbox(),
    {
        match self {
            BvhChild::Prim(p) => p.bbox,
            BvhChild::Node(n) => n.bounding_box,
        }
    }
}

impl BVHNode {
    /// The primitives stored in this subtree.
    pub closed spec fn prims(self) -> Set<BoundedPrim>
        decreases self,
    {
        self.left.prims() + self.right.prims()
    }

    /// Every node's box is exactly the union of its children's boxes.
    pub closed spec fn well_formed(self) -> bool
        decreases self,
    {
        &&& self.bounding_box == self.left.spec_bbox().spec_union(self.right.spec_bbox())
        &&& self.left.well_formed()
        &&& self.right.well_formed()
    }

    pub closed spec fn spec_bounding_box(self) -> AABB {
        self.bounding_box
    }

    pub fn bounding_box(&self) -> (r: AABB)
        ensures
            r == self.spec_bounding_box(),
    {
        self.bounding_box
    }

    pub closed spec fn spec_left(self) -> BvhChild {
        self.left
    }

    pub closed spec fn spec_right(self) -> BvhChild {
        self.right
    }

    pub fn left(&self) -> (r: &BvhChild)
        ensures
            *r == self.spec_left(),
    {
        &self.left
    }

    pub fn right(&self) -> (r: &BvhChild)
        ensures
            *r == self.spec_right(),
    {
        &self.right
    }

    /// Build the hierarchy over a non-empty primitive list. The tree holds
    /// exactly the given primitives, every node's box is the union of its
    /// children's boxes, and the node follows the shape rules: one remaining
    /// primitive becomes both children, two become one leaf each, and a longer
    /// list is split into two subtrees.
    pub fn new(elements: &Vec<BoundedPrim>) -> (node: BVHNode)
        requires
            elements@.len() >= 1,
        ensures
            node.well_formed(),
            node.prims() == elements@.to_set(),
            elements@.len() == 1 ==> node.spec_left() == BvhChild::Prim(elements@[0])
                && node.spec_right() == BvhChild::Prim(elements@[0]),
            elements@.len() == 2 ==> node.spec_left() is Prim && node.spec_right() is Prim,
            elements@.len() >= 3 ==> node.spec_left() is Node && node.spec_right() is Node,
        decreases elements@.len(),
    {
        let axis = rand_below(3);
        let els = sort_by_axis_min(elements, axis);
        proof {
            lemma_same_multiset_same_set(els@, elements@);
        }
        let (left, right): (BvhChild, BvhChild) = if els.len() == 1 {
            proof {
                broadcast use vstd::seq_lib::group_to_multiset_ensures;

                assert(els@.contains(els@[0]));
                assert(elements@.to_multiset().count(els@[0]) > 0);
                assert(elements@.contains(els@[0]));
                let i = choose|i: int| 0 <= i < elements@.len() && elements@[i] == els@[0];
                assert(els@[0] == elements@[0]);
                assert(els@.to_set() =~= Set::empty().insert(els@[0])) by {
                    assert forall|p: BoundedPrim| els@.to_set().contains(p) implies p
                        == els@[0] by {
                        let k = choose|k: int| 0 <= k < els@.len() && els@[k] == p;
                    }
                }
            }
            (BvhChild::Prim(els[0]), BvhChild::Prim(els[0]))
        } else if els.len() == 2 {
            proof {
                assert(els@.to_set() =~= Set::empty().insert(els@[0]).insert(els@[1])) by {
                    assert(els@.contains(els@[0]));
                    assert(els@.contains(els@[1]));
                    assert forall|p: BoundedPrim| els@.to_set().contains(p) implies (p == els@[0]
                        || p == els@[1]) by {
                        let i = choose|i: int| 0 <= i < els@.len() && els@[i] == p;
                    }
                }
            }
            (BvhChild::Prim(els[0]), BvhChild::Prim(els[1]))
        } else {
            let mid = els.len() / 2;
            let first = subvec(&els, 0, mid);
            let second = subvec(&els, mid, els.len());
            proof {
                assert(els@ =~= first@ + second@);
                lemma_to_set_concat(first@, second@);
            }
            let left_node = BVHNode::new(&first);
            let right_node = BVHNode::new(&second);
            (BvhChild::Node(Box::new(left_node)), BvhChild::Node(Box::new(right_node)))
        };
        let bounding_box = left.bbox().union(right.bbox());
        BVHNode { left, right, bounding_box }
    }

    /// A node's box covers the box of every primitive in its subtree, so a
    /// ray that misses the node's box misses them all and the subtree can be
    /// pruned.
    pub proof fn lemma_box_covers_prims(self)
        requires
            self.well_formed(),
        ensures
            forall|p: BoundedPrim|
                self.prims().contains(p) ==> self.spec_bounding_box().contains_box(#[trigger] p.bbox),
        decreases self,
    {
        self.left.spec_bbox().lemma_union_properties(self.right.spec_bbox());
        assert forall|p: BoundedPrim|
            self.prims().contains(p) implies self.spec_bounding_box().contains_box(
            #[trigger] p.bbox,
        ) by {
            if self.left.prims().contains(p) {
                Self::lemma_child_covers(self.left, p);
                self.spec_bounding_box().lemma_contains_transitive(self.left.spec_bbox(), p.bbox);
            } else {
                Self::lemma_child_covers(self.right, p);
                self.spec_bounding_box().lemma_contains_transitive(self.right.spec_bbox(), p.bbox);
            }
        }
    }

    /// A child's box covers the box of every primitive reachable through it.
    proof fn lemma_child_covers(child: BvhChild, p: BoundedPrim)
        requires
            child.well_formed(),
            child.prims().contains(p),
        ensures
            child.spec_bbox().contains_box(p.bbox),
        decreases child,
    {
        match child {
            BvhChild::Prim(q) => {
            },
            BvhChild::Node(n) => {
                n.lemma_box_covers_prims();
            },
        }
    }
}

/// The side of a node whose intersection traversal keeps.
#[derive(Clone, Copy, PartialEq, Eq, Structural, Debug)]
pub enum CloserChild {
    Left,
    Right,
}

/// Traversal tests both children of a node whose box was hit and keeps the
/// closer intersection. Hit parameters arrive as order-embedded scalars, like
/// the box coordinates: the left child wins exactly when it alone hit, or
/// both hit and its parameter is strictly smaller; a tie goes to the right,
/// deterministically.
pub fn closer_child(left_t: Option<i64>, right_t: Option<i64>) -> (r: Option<CloserChild>)
    ensures
        r is Some <==> (left_t is Some || right_t is Some),
        left_t is Some && right_t is None ==> r == Some(CloserChild::Left),
        left_t is None && right_t is Some ==> r == Some(CloserChild::Right),
        left_t matches Some(l) ==> right_t matches Some(rt) ==> r == Some(
            if l < rt {
                CloserChild::Left
            } else {
                CloserChild::Right
            },
        ),
{
    match (left_t, right_t) {
        (Some(l), Some(rt)) => if l < rt {
            Some(CloserChild::Left)
        } else {
            Some(CloserChild::Right)
        },
        (Some(_), None) => Some(CloserChild::Left),
        (None, Some(_)) => Some(CloserChild::Right),
        (None, None) => None,
    }
}

/// Primitive `p`'s sort key on axis `d`: the minimum corner of its box.
pub open spec fn axis_key(p: BoundedPrim, d: int) -> i64 {
    p.bbox.min.axis(d)
}

/// The primitives are ordered by their boxes' minimum corner on axis `d`.
pub open spec fn sorted_by_axis_min(s: Seq<BoundedPrim>, d: int) -> bool {
    forall|a: int, b: int|
        0 <= a <= b < s.len() ==> axis_key(#[trigger] s[a], d) <= axis_key(#[trigger] s[b], d)
}

/// Equal element multiplicities make equal element sets.
proof fn lemma_same_multiset_same_set<A>(s: Seq<A>, t: Seq<A>)
    requires
        s.to_multiset() == t.to_multiset(),
    ensures
        s.to_set() == t.to_set(),
{
    broadcast use vstd::seq_lib::group_to_multiset_ensures;

    assert forall|x: A| s.to_set().contains(x) == t.to_set().contains(x) by {
        assert(s.contains(x) <==> s.to_multiset().count(x) > 0);
        assert(t.contains(x) <==> t.to_multiset().count(x) > 0);
    }
    assert(s.to_set() =~= t.to_set());
}

/// Concatenating sequences unions their element sets.
proof fn lemma_to_set_concat<A>(s: Seq<A>, t: Seq<A>)
    ensures
        (s + t).to_set() == s.to_set() + t.to_set(),
{
    assert forall|x: A| (s + t).to_set().contains(x) implies (s.to_set() + t.to_set()).contains(
        x,
    ) by {
        let i = choose|i: int| 0 <= i < (s + t).len() && (s + t)[i] == x;
        if i < s.len() {
            assert(s[i] == x);
        } else {
            assert(t[i - s.len()] == x);
        }
    }
    assert forall|x: A| (s.to_set() + t.to_set()).contains(x) implies (s + t).to_set().contains(
        x,
    ) by {
        if s.to_set().contains(x) {
            let i = choose|i: int| 0 <= i < s.len() && s[i] == x;
            assert((s + t)[i] == x);
        } else {
            let i = choose|i: int| 0 <= i < t.len() && t[i] == x;
            assert((s + t)[s.len() + i] == x);
        }
    }
    assert((s + t).to_set() =~= s.to_set() + t.to_set());
}

/// Copy of `v[from..to]`.
fn subvec(v: &Vec<BoundedPrim>, from: usize, to: usize) -> (r: Vec<BoundedPrim>)
    requires
        from <= to <= v@.len(),
    ensures
        r@ == v@.subrange(from as int, to as int),
{
    let mut r: Vec<BoundedPrim> = Vec::new();
    let mut i: usize = from;
    while i < to
        invariant
            from <= i <= to <= v@.len(),
            r@ == v@.subrange(from as int, i as int),
        decreases to - i,
    {
        r.push(v[i]);
        proof {
            assert(r@ =~= v@.subrange(from as int, i + 1 as int));
        }
        i = i + 1;
    }
    r
}

/// Sort key of `v[idx]` on axis `d`.
fn key_at(v: &Vec<BoundedPrim>, idx: usize, d: usize) -> (r: i64)
    requires
        idx < v@.len(),
        d < 3,
    ensures
        r == axis_key(v@[idx as int], d as int),
{
    v[idx].bbox.min.axis_value(d)
}

/// Order the primitives by the minimum corner of their boxes on axis `d`
/// (insertion sort): the result holds exactly the given primitives.
fn sort_by_axis_min(elements: &Vec<BoundedPrim>, d: usize) -> (r: Vec<BoundedPrim>)
    requires
        d < 3,
    ensures
        r@.len() == elements@.len(),
        r@.to_multiset() == elements@.to_multiset(),
        sorted_by_axis_min(r@, d as int),
{
    let mut els: Vec<BoundedPrim> = Vec::new();
    let mut k: usize = 0;
    while k < elements.len()
        invariant
            k <= elements@.len(),
            els@ == elements@.subrange(0, k as int),
        decreases elements@.len() - k,
    {
        els.push(elements[k]);
        proof {
            assert(els@ =~= elements@.subrange(0, k + 1 as int));
        }
        k = k + 1;
    }
    proof {
        assert(els@ =~= elements@);
    }
    let n = els.len();
    if n <= 1 {
        return els;
    }
    let ghost dd = d as int;
    let mut i: usize = 1;
    while i < n
        invariant
            1 <= i <= n,
            n == els@.len() == elements@.len(),
            d < 3,
            dd == d as int,
            els@.to_multiset() == elements@.to_multiset(),
            sorted_by_axis_min(els@.subrange(0, i as int), dd),
        decreases n - i,
    {
        proof {
            assert forall|a: int, b: int|
                0 <= a <= b <= i && a != i as int && b != i as int implies axis_key(
                #[trigger] els@[a],
                dd,
            ) <= axis_key(#[trigger] els@[b], dd) by {
                assert(els@.subrange(0, i as int)[a] == els@[a]);
                assert(els@.subrange(0, i as int)[b] == els@[b]);
            }
        }
        let mut j: usize = i;
        while j > 0 && key_at(&els, j - 1, d) > key_at(&els, j, d)
            invariant
                j <= i < n,
                n == els@.len() == elements@.len(),
                d < 3,
                dd == d as int,
                els@.to_multiset() == elements@.to_multiset(),
                // sorted up to i, ignoring the element sinking at position j
                forall|a: int, b: int|
                    0 <= a <= b <= i && a != j && b != j ==> axis_key(#[trigger] els@[a], dd)
                        <= axis_key(#[trigger] els@[b], dd),
                // the sinking element is below everything after it
                forall|b: int|
                    j < b <= i ==> axis_key(els@[j as int], dd) <= axis_key(
                        #[trigger] els@[b],
                        dd,
                    ),
            decreases j,
        {
            let ghost pre = els@;
            let bigger = els[j - 1];
            let sinking = els[j];
            els.set(j - 1, sinking);
            els.set(j, bigger);
            proof {
                broadcast use vstd::seq_lib::to_multiset_update;
                broadcast use vstd::seq_lib::group_to_multiset_ensures;

                assert(pre.contains(pre[j - 1]));
                assert(pre.contains(pre[j as int]));
                assert(els@ == pre.update(j - 1, sinking).update(j as int, bigger));
                assert(els@.to_multiset() =~= pre.to_multiset());
            }
            j = j - 1;
        }
        proof {
            assert forall|a: int, b: int| 0 <= a <= b <= i implies axis_key(
                #[trigger] els@[a],
                dd,
            ) <= axis_key(#[trigger] els@[b], dd) by {
                if a == j && b != j {
                } else if b == j && a != j {
                    if j > 0 {
                        if a < j - 1 {
                            assert(axis_key(els@[a], dd) <= axis_key(els@[j - 1], dd));
                        }
                    }
                }
            }
            assert(sorted_by_axis_min(els@.subrange(0, i + 1 as int), dd));
        }
        i = i + 1;
    }
    proof {
        assert(els@ =~= els@.subrange(0, n as int));
    }
    els
}

} // verus!
