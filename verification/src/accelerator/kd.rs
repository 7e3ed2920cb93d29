use vstd::prelude::*;
use crate::aabb::{box_inside, lemma_in_box_monotone, ray_misses_box, Aabb};
use crate::accelerator::{
    beaten, better, idx_upto, is_best, lemma_best_concat, lemma_best_same_members,
};
use crate::scene::Scene;
use crate::shape::{lemma_hit_in_bounding_box, Hit, Shape};
use crate::vector::Ray;

verus! {

/// A node stops splitting at or below this shape count.
pub const LEAF_SIZE: usize = 8;

/// An index sequence, widened for use in specifications.
pub open spec fn idx_seq(s: Seq<usize>) -> Seq<int> {
    Seq::new(s.len(), |i: int| s[i] as int)
}

/// Whether one of the first `n` entries of `s` is the index `x`.
pub open spec fn prefix_contains(s: Seq<usize>, n: int, x: int) -> bool {
    exists|k: int| 0 <= k < n && s[k] as int == x
}

proof fn lemma_idx_push_contains(s: Seq<usize>, v: usize)
    ensures
        forall|x: int|
            #[trigger] idx_seq(s.push(v)).contains(x) <==> (idx_seq(s).contains(x) || x
                == v as int),
{
    assert forall|x: int|
        #[trigger] idx_seq(s.push(v)).contains(x) <==> (idx_seq(s).contains(x) || x
            == v as int) by {
        if idx_seq(s.push(v)).contains(x) {
            let k = choose|k: int|
                0 <= k < idx_seq(s.push(v)).len() && idx_seq(s.push(v))[k] == x;
            if k < s.len() {
                assert(idx_seq(s)[k] == x);
                assert(idx_seq(s).contains(x));
            }
        }
        if idx_seq(s).contains(x) {
            let k = choose|k: int| 0 <= k < idx_seq(s).len() && idx_seq(s)[k] == x;
            assert(idx_seq(s.push(v))[k] == x);
            assert(idx_seq(s.push(v)).contains(x));
        }
        if x == v as int {
            assert(idx_seq(s.push(v))[s.len() as int] == x);
            assert(idx_seq(s.push(v)).contains(x));
        }
    }
}

proof fn lemma_prefix_contains_step(s: Seq<usize>, i: int)
    requires
        0 <= i < s.len(),
    ensures
        forall|x: int|
            #[trigger] prefix_contains(s, i + 1, x) <==> (prefix_contains(s, i, x) || x
                == s[i] as int),
{
    assert forall|x: int|
        #[trigger] prefix_contains(s, i + 1, x) <==> (prefix_contains(s, i, x) || x
            == s[i] as int) by {
        if prefix_contains(s, i + 1, x) {
            let k = choose|k: int| 0 <= k < i + 1 && s[k] as int == x;
            if k < i {
                assert(prefix_contains(s, i, x));
            }
        }
        if prefix_contains(s, i, x) {
            let k = choose|k: int| 0 <= k < i && s[k] as int == x;
            assert(0 <= k < i + 1 && s[k] as int == x);
            assert(prefix_contains(s, i + 1, x));
        }
        if x == s[i] as int {
            assert(0 <= i < i + 1 && s[i] as int == x);
            assert(prefix_contains(s, i + 1, x));
        }
    }
}

proof fn lemma_prefix_full(s: Seq<usize>)
    ensures
        forall|x: int| #[trigger] prefix_contains(s, s.len() as int, x) <==> idx_seq(s).contains(x),
{
    assert forall|x: int|
        #[trigger] prefix_contains(s, s.len() as int, x) <==> idx_seq(s).contains(x) by {
        if prefix_contains(s, s.len() as int, x) {
            let k = choose|k: int| 0 <= k < s.len() && s[k] as int == x;
            assert(idx_seq(s)[k] == x);
            assert(idx_seq(s).contains(x));
        }
        if idx_seq(s).contains(x) {
            let k = choose|k: int| 0 <= k < idx_seq(s).len() && idx_seq(s)[k] == x;
            assert(s[k] as int == x);
            assert(prefix_contains(s, s.len() as int, x));
        }
    }
}

proof fn lemma_concat_contains(a: Seq<int>, b: Seq<int>)
    ensures
        forall|x: int| #[trigger] (a + b).contains(x) <==> (a.contains(x) || b.contains(x)),
{
    assert forall|x: int| #[trigger] (a + b).contains(x) <==> (a.contains(x) || b.contains(x)) by {
        if (a + b).contains(x) {
            let k = choose|k: int| 0 <= k < (a + b).len() && (a + b)[k] == x;
            if k < a.len() {
                assert(a[k] == x);
                assert(a.contains(x));
            } else {
                assert(b[k - a.len()] == x);
                assert(b.contains(x));
            }
        }
        if a.contains(x) {
            let k = choose|k: int| 0 <= k < a.len() && a[k] == x;
            assert((a + b)[k] == x);
            assert((a + b).contains(x));
        }
        if b.contains(x) {
            let k = choose|k: int| 0 <= k < b.len() && b[k] == x;
            assert((a + b)[a.len() + k] == x);
            assert((a + b).contains(x));
        }
    }
}

/// The shapes stored by a leaf, as indices into the scene's collection.
pub struct Leaf {
    pub bounding_box: Aabb,
    pub shapes: Vec<usize>,
}

/// One node of the spatial partitioning tree. Every node carries the box
/// enclosing the bounding boxes of all shapes beneath it.
pub enum Node {
    Leaf(Leaf),
    Branch { bounding_box: Aabb, left: Box<Node>, right: Box<Node> },
}

impl Node {
    pub open spec fn bb(self) -> Aabb {
        match self {
            Node::Leaf(l) => l.bounding_box,
            Node::Branch { bounding_box, .. } => bounding_box,
        }
    }

    /// Every shape index stored beneath this node, in traversal order.
    pub open spec fn idxs(self) -> Seq<int>
        decreases self,
    {
        match self {
            Node::Leaf(l) => idx_seq(l.shapes@),
            Node::Branch { left, right, .. } => left.idxs() + right.idxs(),
        }
    }

    /// Every stored index is valid and its shape's bounding box lies inside
    /// the node's box; so recursively for the children.
    pub open spec fn wf(self, shapes: Seq<Shape>) -> bool
        decreases self,
    {
        &&& (forall|x: int|
            #[trigger] self.idxs().contains(x) ==> 0 <= x < shapes.len() && box_inside(
                shapes[x].spec_bounding_box(),
                self.bb(),
            ))
        &&& match self {
            Node::Branch { left, right, .. } => left.wf(shapes) && right.wf(shapes),
            Node::Leaf(_) => true,
        }
    }

    /// Builds the subtree over the given shape indices: encloses them in one
    /// box, and splits them at the box midpoint of its widest axis until a
    /// node holds few enough shapes or a split no longer separates them.
    pub fn new(shapes: &Vec<Shape>, idxs: Vec<usize>) -> (r: Node)
        requires
            forall|k: int| 0 <= k < idxs@.len() ==> #[trigger] idxs@[k] < shapes@.len(),
        ensures
            r.wf(shapes@),
            forall|x: int| #[trigger] r.idxs().contains(x) <==> idx_seq(idxs@).contains(x),
        decreases idxs@.len(),
    {
        let ghost gi = idxs@;
        let n = idxs.len();
        if n == 0 {
            let r = Node::Leaf(Leaf { bounding_box: Aabb::zero(), shapes: idxs });
            proof {
                assert(r.idxs() == idx_seq(gi));
            }
            return r;
        }
        let mut bb = shapes[idxs[0]].bounding_box();
        let mut i: usize = 0;
        while i < n
            invariant
                i <= n,
                n == idxs@.len(),
                forall|k: int| 0 <= k < n ==> #[trigger] idxs@[k] < shapes@.len(),
                forall|k: int|
                    0 <= k < i ==> box_inside(
                        shapes@[#[trigger] idxs@[k] as int].spec_bounding_box(),
                        bb,
                    ),
            decreases n - i,
        {
            let sb = shapes[idxs[i]].bounding_box();
            let nbb = bb.extend(&sb);
            proof {
                assert forall|k: int|
                    0 <= k < i + 1 implies box_inside(
                    shapes@[#[trigger] idxs@[k] as int].spec_bounding_box(),
                    nbb,
                ) by {
                    if k < i {
                        crate::aabb::lemma_box_inside_trans(
                            shapes@[idxs@[k] as int].spec_bounding_box(),
                            bb,
                            nbb,
                        );
                    }
                }
            }
            bb = nbb;
            i = i + 1;
        }
        if n <= LEAF_SIZE {
            let ghost gbb = bb;
            let r = Node::Leaf(Leaf { bounding_box: bb, shapes: idxs });
            proof {
                lemma_leaf_wf(r, shapes@, gi, gbb);
            }
            return r;
        }
        let axis = bb.widest_axis();
        let mid = bb.mid_on(axis);
        let mut la: Vec<usize> = Vec::new();
        let mut lb: Vec<usize> = Vec::new();
        let mut i: usize = 0;
        while i < n
            invariant
                i <= n,
                n == idxs@.len(),
                la@.len() + lb@.len() == i,
                forall|k: int| 0 <= k < n ==> #[trigger] idxs@[k] < shapes@.len(),
                forall|k: int| 0 <= k < la@.len() ==> #[trigger] la@[k] < shapes@.len(),
                forall|k: int| 0 <= k < lb@.len() ==> #[trigger] lb@[k] < shapes@.len(),
                forall|x: int|
                    (idx_seq(la@).contains(x) || idx_seq(lb@).contains(x)) <==> #[trigger]
                    prefix_contains(idxs@, i as int, x),
            decreases n - i,
        {
            let idx = idxs[i];
            let sb = shapes[idx].bounding_box();
            let c = sb.mid_on(axis);
            proof {
                lemma_prefix_contains_step(idxs@, i as int);
            }
            if c < mid {
                proof {
                    lemma_idx_push_contains(la@, idx);
                }
                la.push(idx);
            } else {
                proof {
                    lemma_idx_push_contains(lb@, idx);
                }
                lb.push(idx);
            }
            i = i + 1;
        }
        proof {
            lemma_prefix_full(idxs@);
        }
        if la.len() == 0 || lb.len() == 0 {
            let ghost gbb = bb;
            let r = Node::Leaf(Leaf { bounding_box: bb, shapes: idxs });
            proof {
                lemma_leaf_wf(r, shapes@, gi, gbb);
            }
            return r;
        }
        let ghost gla = la@;
        let ghost glb = lb@;
        let left = Node::new(shapes, la);
        let right = Node::new(shapes, lb);
        let ghost gleft = left;
        let ghost gright = right;
        let r = Node::Branch { bounding_box: bb, left: Box::new(left), right: Box::new(right) };
        proof {
            assert(r.idxs() == gleft.idxs() + gright.idxs());
            assert(r.bb() == bb);
            lemma_concat_contains(gleft.idxs(), gright.idxs());
            assert forall|x: int| #[trigger] r.idxs().contains(x) <==> idx_seq(gi).contains(
                x,
            ) by {
                assert(r.idxs().contains(x) <==> (gleft.idxs().contains(x)
                    || gright.idxs().contains(x)));
                assert(gleft.idxs().contains(x) <==> idx_seq(gla).contains(x));
                assert(gright.idxs().contains(x) <==> idx_seq(glb).contains(x));
                assert((idx_seq(gla).contains(x) || idx_seq(glb).contains(x)) <==> prefix_contains(
                    gi,
                    gi.len() as int,
                    x,
                ));
            }
            assert forall|x: int| #[trigger] r.idxs().contains(x) implies 0 <= x < shapes@.len()
                && box_inside(shapes@[x].spec_bounding_box(), r.bb()) by {
                assert(idx_seq(gi).contains(x));
                let k = choose|k: int| 0 <= k < idx_seq(gi).len() && idx_seq(gi)[k] == x;
                assert(gi[k] as int == x);
            }
        }
        r
    }

    /// Answers the query for the shapes beneath this node, skipping the whole
    /// subtree when the ray provably misses the node's box.
    fn trace_node(&self, shapes: &Vec<Shape>, ray: &Ray) -> (r: Option<Hit>)
        requires
            self.wf(shapes@),
        ensures
            is_best(shapes@, self.idxs(), *ray, r),
        decreases *self,
    {
        let bb = match self {
            Node::Leaf(l) => l.bounding_box,
            Node::Branch { bounding_box, .. } => *bounding_box,
        };
        if ray_misses_box(ray, &bb) {
            proof {
                assert forall|k: int|
                    0 <= k < self.idxs().len() implies shapes@[#[trigger] self.idxs()[k]].spec_hit(
                    *ray,
                ) is None by {
                    let x = self.idxs()[k];
                    assert(self.idxs().contains(x));
                    if shapes@[x].spec_hit(*ray) is Some {
                        let t = shapes@[x].spec_hit(*ray)->0;
                        lemma_hit_in_bounding_box(shapes@[x], *ray, t);
                        lemma_in_box_monotone(
                            *ray,
                            t as int,
                            shapes@[x].spec_bounding_box(),
                            self.bb(),
                        );
                    }
                }
            }
            return Option::None;
        }
        match self {
            Node::Leaf(l) => {
                proof {
                    assert(self.idxs() == idx_seq(l.shapes@));
                    assert forall|k: int|
                        0 <= k < l.shapes@.len() implies #[trigger] l.shapes@[k]
                        < shapes@.len() by {
                        assert(idx_seq(l.shapes@)[k] == l.shapes@[k] as int);
                        assert(self.idxs().contains(l.shapes@[k] as int));
                    }
                }
                let m = l.shapes.len();
                let mut best: Option<Hit> = Option::None;
                let mut i: usize = 0;
                while i < m
                    invariant
                        i <= m,
                        m == l.shapes@.len(),
                        forall|k: int| 0 <= k < m ==> #[trigger] l.shapes@[k] < shapes@.len(),
                        is_best(shapes@, idx_seq(l.shapes@).subrange(0, i as int), *ray, best),
                    decreases m - i,
                {
                    let idx = l.shapes[i];
                    let h = shapes[idx].hit(ray);
                    let next: Option<Hit> = match (h, &best) {
                        (Option::Some(t), Option::None) => Option::Some(Hit { shape: idx, t }),
                        (Option::Some(t), Option::Some(b)) => {
                            if t < b.t || (t == b.t && idx < b.shape) {
                                Option::Some(Hit { shape: idx, t })
                            } else {
                                best
                            }
                        },
                        (Option::None, _) => best,
                    };
                    proof {
                        let pre = idx_seq(l.shapes@).subrange(0, i as int);
                        let post = idx_seq(l.shapes@).subrange(0, i + 1);
                        assert(post =~= pre.push(idx as int));
                        if next is Some {
                            let hb = next->0;
                            if best is Some && hb == best->0 {
                                assert(pre.contains(hb.shape as int));
                                let k = choose|k: int|
                                    0 <= k < pre.len() && pre[k] == hb.shape as int;
                                assert(post[k] == hb.shape as int);
                                assert(post.contains(hb.shape as int));
                            } else {
                                assert(post[i as int] == idx as int);
                                assert(post.contains(hb.shape as int));
                            }
                            assert forall|k: int| 0 <= k < post.len() implies beaten(
                                shapes@,
                                #[trigger] post[k],
                                *ray,
                                hb,
                            ) by {
                                if k < i as int {
                                    assert(post[k] == pre[k]);
                                    if best is Some {
                                        assert(beaten(shapes@, pre[k], *ray, best->0));
                                    } else {
                                        assert(shapes@[pre[k]].spec_hit(*ray) is None);
                                    }
                                } else {
                                    assert(post[k] == idx as int);
                                }
                            }
                        } else {
                            assert forall|k: int|
                                0 <= k < post.len() implies shapes@[#[trigger] post[k]].spec_hit(
                                *ray,
                            ) is None by {
                                if k < i as int {
                                    assert(post[k] == pre[k]);
                                    assert(shapes@[pre[k]].spec_hit(*ray) is None);
                                }
                            }
                        }
                    }
                    best = next;
                    i = i + 1;
                }
                proof {
                    assert(idx_seq(l.shapes@).subrange(0, m as int) =~= idx_seq(l.shapes@));
                }
                best
            },
            Node::Branch { bounding_box, left, right } => {
                let rl = left.trace_node(shapes, ray);
                let rr = right.trace_node(shapes, ray);
                proof {
                    lemma_best_concat(shapes@, left.idxs(), right.idxs(), *ray, rl, rr);
                }
                better(rl, rr)
            },
        }
    }
}

/// A leaf whose box encloses all its members, over valid indices, is well
/// formed and stores exactly the given index sequence.
proof fn lemma_leaf_wf(r: Node, shapes: Seq<Shape>, gi: Seq<usize>, gbb: Aabb)
    requires
        r is Leaf,
        r->0.bounding_box == gbb,
        r->0.shapes@ == gi,
        forall|k: int| 0 <= k < gi.len() ==> #[trigger] gi[k] < shapes.len(),
        forall|k: int|
            0 <= k < gi.len() ==> box_inside(
                shapes[#[trigger] gi[k] as int].spec_bounding_box(),
                gbb,
            ),
    ensures
        r.wf(shapes),
        forall|x: int| #[trigger] r.idxs().contains(x) <==> idx_seq(gi).contains(x),
{
    assert(r.idxs() == idx_seq(gi));
    assert forall|x: int| #[trigger] r.idxs().contains(x) implies 0 <= x < shapes.len()
        && box_inside(shapes[x].spec_bounding_box(), r.bb()) by {
        let k = choose|k: int| 0 <= k < idx_seq(gi).len() && idx_seq(gi)[k] == x;
        assert(gi[k] as int == x);
    }
}

/// The spatial partitioning tree accelerator: a copy of the scene's shapes
/// and a tree of index ranges over them.
pub struct KdTree {
    pub shapes: Vec<Shape>,
    pub root: Node,
}

impl KdTree {
    pub open spec fn wf(&self) -> bool {
        &&& self.root.wf(self.shapes@)
        &&& forall|x: int|
            #[trigger] self.root.idxs().contains(x) <==> idx_upto(
                self.shapes@.len() as int,
            ).contains(x)
    }

    pub fn new(scene: &Scene) -> (r: KdTree)
        ensures
            r.wf(),
            r.shapes@ == scene.shapes@,
    {
        let mut shapes: Vec<Shape> = Vec::new();
        let n = scene.shapes.len();
        let mut i: usize = 0;
        while i < n
            invariant
                i <= n,
                n == scene.shapes@.len(),
                shapes@ == scene.shapes@.subrange(0, i as int),
            decreases n - i,
        {
            shapes.push(scene.shapes[i]);
            proof {
                assert(shapes@ =~= scene.shapes@.subrange(0, i + 1));
            }
            i = i + 1;
        }
        proof {
            assert(shapes@ =~= scene.shapes@);
        }
        let mut idxs: Vec<usize> = Vec::new();
        let mut i: usize = 0;
        while i < n
            invariant
                i <= n,
                n == shapes@.len(),
                idxs@.len() == i,
                forall|k: int| 0 <= k < i ==> #[trigger] idxs@[k] == k,
            decreases n - i,
        {
            idxs.push(i);
            i = i + 1;
        }
        let ghost gidxs = idxs@;
        let root = Node::new(&shapes, idxs);
        proof {
            assert forall|x: int| #[trigger] root.idxs().contains(x) <==> idx_upto(
                shapes@.len() as int,
            ).contains(x) by {
                if root.idxs().contains(x) {
                    assert(idx_seq(gidxs).contains(x));
                    let k = choose|k: int| 0 <= k < idx_seq(gidxs).len() && idx_seq(gidxs)[k] == x;
                    assert(gidxs[k] as int == x);
                    assert(idx_upto(shapes@.len() as int)[x] == x);
                    assert(idx_upto(shapes@.len() as int).contains(x));
                }
                if idx_upto(shapes@.len() as int).contains(x) {
                    let k = choose|k: int|
                        0 <= k < shapes@.len() && idx_upto(shapes@.len() as int)[k] == x;
                    assert(x == k);
                    assert(idx_seq(gidxs)[k] == x);
                    assert(idx_seq(gidxs).contains(x));
                    assert(root.idxs().contains(x));
                }
            }
        }
        KdTree { shapes, root }
    }

    /// The same answer the linear scan gives, found through the tree.
    pub fn trace(&self, ray: &Ray) -> (r: Option<Hit>)
        requires
            self.wf(),
        ensures
            is_best(self.shapes@, idx_upto(self.shapes@.len() as int), *ray, r),
    {
        let r = self.root.trace_node(&self.shapes, ray);
        proof {
            lemma_best_same_members(
                self.shapes@,
                self.root.idxs(),
                idx_upto(self.shapes@.len() as int),
                *ray,
                r,
            );
        }
        r
    }
}

} // verus!
