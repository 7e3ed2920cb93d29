use vstd::prelude::*;
use crate::shape::{Hit, Shape};
use crate::vector::Ray;

pub mod kd;
pub mod linear;

verus! {

/// Whether the hit `h` is at least as good as whatever shape `j` offers:
/// shape `j` misses, is struck strictly farther away, or is struck at the
/// same parameter but has a larger index.
pub open spec fn beaten(shapes: Seq<Shape>, j: int, ray: Ray, h: Hit) -> bool
    recommends
        0 <= j < shapes.len(),
{
    match shapes[j].spec_hit(ray) {
        Option::None => true,
        Option::Some(t2) => h.t < t2 || (h.t == t2 && h.shape <= j),
    }
}

/// Every index named by `idxs` points into the shape collection.
pub open spec fn idxs_valid(shapes: Seq<Shape>, idxs: Seq<int>) -> bool {
    forall|k: int| 0 <= k < idxs.len() ==> 0 <= #[trigger] idxs[k] < shapes.len()
}

/// The one contract both accelerators meet: `r` is the nearest hit among the
/// shapes listed in `idxs`, with ties resolved toward the smallest index, or
/// `None` exactly when every listed shape misses.
pub open spec fn is_best(shapes: Seq<Shape>, idxs: Seq<int>, ray: Ray, r: Option<Hit>) -> bool {
    match r {
        Option::None => forall|k: int|
            0 <= k < idxs.len() ==> shapes[#[trigger] idxs[k]].spec_hit(ray) is None,
        Option::Some(h) => {
            &&& 0 <= h.shape < shapes.len()
            &&& idxs.contains(h.shape as int)
            &&& shapes[h.shape as int].spec_hit(ray) == Option::Some(h.t)
            &&& forall|k: int| 0 <= k < idxs.len() ==> beaten(shapes, #[trigger] idxs[k], ray, h)
        },
    }
}

/// The index sequence `0, 1, ..., n - 1`.
pub open spec fn idx_upto(n: int) -> Seq<int> {
    Seq::new(n as nat, |i: int| i)
}

/// The nearest hit among a set of shapes is unique: any two accelerators
/// that both meet `is_best` over index sequences with the same members
/// return the same answer. This is what makes the linear scan and the
/// spatial tree interchangeable.
pub proof fn lemma_best_unique(
    shapes: Seq<Shape>,
    idxs: Seq<int>,
    ray: Ray,
    r1: Option<Hit>,
    r2: Option<Hit>,
)
    requires
        is_best(shapes, idxs, ray, r1),
        is_best(shapes, idxs, ray, r2),
    ensures
        r1 == r2,
{
    match (r1, r2) {
        (Option::Some(h1), Option::Some(h2)) => {
            let k1 = choose|k: int| 0 <= k < idxs.len() && idxs[k] == h1.shape as int;
            let k2 = choose|k: int| 0 <= k < idxs.len() && idxs[k] == h2.shape as int;
            assert(idxs.contains(h1.shape as int));
            assert(idxs.contains(h2.shape as int));
            assert(beaten(shapes, idxs[k2], ray, h1));
            assert(beaten(shapes, idxs[k1], ray, h2));
        },
        (Option::Some(h1), Option::None) => {
            let k1 = choose|k: int| 0 <= k < idxs.len() && idxs[k] == h1.shape as int;
            assert(idxs.contains(h1.shape as int));
            assert(shapes[idxs[k1]].spec_hit(ray) is None);
        },
        (Option::None, Option::Some(h2)) => {
            let k2 = choose|k: int| 0 <= k < idxs.len() && idxs[k] == h2.shape as int;
            assert(idxs.contains(h2.shape as int));
            assert(shapes[idxs[k2]].spec_hit(ray) is None);
        },
        (Option::None, Option::None) => {},
    }
}

/// `is_best` only looks at which indices occur, never at their order or
/// multiplicity.
pub proof fn lemma_best_same_members(
    shapes: Seq<Shape>,
    a: Seq<int>,
    b: Seq<int>,
    ray: Ray,
    r: Option<Hit>,
)
    requires
        is_best(shapes, a, ray, r),
        forall|x: int| a.contains(x) <==> b.contains(x),
    ensures
        is_best(shapes, b, ray, r),
{
    match r {
        Option::None => {
            assert forall|k: int| 0 <= k < b.len() implies shapes[#[trigger] b[k]].spec_hit(ray)
                is None by {
                assert(b.contains(b[k]));
                let j = choose|j: int| 0 <= j < a.len() && a[j] == b[k];
                assert(shapes[a[j]].spec_hit(ray) is None);
            }
        },
        Option::Some(h) => {
            assert(a.contains(h.shape as int));
            assert(b.contains(h.shape as int));
            assert forall|k: int| 0 <= k < b.len() implies beaten(
                shapes,
                #[trigger] b[k],
                ray,
                h,
            ) by {
                assert(b.contains(b[k]));
                let j = choose|j: int| 0 <= j < a.len() && a[j] == b[k];
                assert(beaten(shapes, a[j], ray, h));
            }
        },
    }
}

/// The better of two optional hits: the strictly nearer one, or on a tie the
/// one with the smaller shape index; the left argument wins ties of both.
pub open spec fn spec_better(a: Option<Hit>, b: Option<Hit>) -> Option<Hit> {
    match (a, b) {
        (Option::None, x) => x,
        (x, Option::None) => x,
        (Option::Some(h1), Option::Some(h2)) => if h2.t < h1.t || (h2.t == h1.t && h2.shape
            < h1.shape) {
            Option::Some(h2)
        } else {
            Option::Some(h1)
        },
    }
}

/// Combining the bests of two index sequences gives the best of their
/// concatenation.
pub proof fn lemma_best_concat(
    shapes: Seq<Shape>,
    a: Seq<int>,
    b: Seq<int>,
    ray: Ray,
    ra: Option<Hit>,
    rb: Option<Hit>,
)
    requires
        is_best(shapes, a, ray, ra),
        is_best(shapes, b, ray, rb),
    ensures
        is_best(shapes, a + b, ray, spec_better(ra, rb)),
{
    let ab = a + b;
    assert forall|k: int| 0 <= k < ab.len() implies (0 <= k < a.len() && ab[k] == a[k]) || (
    a.len() <= k < ab.len() && ab[k] == b[k - a.len()]) by {}
    match (ra, rb) {
        (Option::None, Option::None) => {
            assert forall|k: int| 0 <= k < ab.len() implies shapes[#[trigger] ab[k]].spec_hit(ray)
                is None by {
                if k < a.len() {
                    assert(shapes[a[k]].spec_hit(ray) is None);
                } else {
                    assert(shapes[b[k - a.len()]].spec_hit(ray) is None);
                }
            }
        },
        _ => {
            let h = spec_better(ra, rb)->Some_0;
            match (ra, rb) {
                (Option::Some(h1), Option::None) => {
                    let j = choose|j: int| 0 <= j < a.len() && a[j] == h1.shape as int;
                    assert(a.contains(h1.shape as int));
                    assert(ab[j] == h1.shape as int);
                    assert(ab.contains(h1.shape as int));
                },
                (Option::None, Option::Some(h2)) => {
                    let j = choose|j: int| 0 <= j < b.len() && b[j] == h2.shape as int;
                    assert(b.contains(h2.shape as int));
                    assert(ab[a.len() + j] == h2.shape as int);
                    assert(ab.contains(h2.shape as int));
                },
                (Option::Some(h1), Option::Some(h2)) => {
                    let j1 = choose|j: int| 0 <= j < a.len() && a[j] == h1.shape as int;
                    assert(a.contains(h1.shape as int));
                    assert(ab[j1] == h1.shape as int);
                    let j2 = choose|j: int| 0 <= j < b.len() && b[j] == h2.shape as int;
                    assert(b.contains(h2.shape as int));
                    assert(ab[a.len() + j2] == h2.shape as int);
                    assert(ab.contains(h1.shape as int));
                    assert(ab.contains(h2.shape as int));
                },
                _ => {},
            }
            assert forall|k: int| 0 <= k < ab.len() implies beaten(
                shapes,
                #[trigger] ab[k],
                ray,
                h,
            ) by {
                if k < a.len() {
                    assert(beaten(shapes, a[k], ray, if ra is Some {
                        ra->Some_0
                    } else {
                        h
                    }));
                } else {
                    assert(beaten(shapes, b[k - a.len()], ray, if rb is Some {
                        rb->Some_0
                    } else {
                        h
                    }));
                }
            }
        },
    }
}

/// The better of two optional hits, as executable code.
pub fn better(a: Option<Hit>, b: Option<Hit>) -> (r: Option<Hit>)
    ensures
        r == spec_better(a, b),
{
    match (a, b) {
        (Option::None, x) => x,
        (x, Option::None) => x,
        (Option::Some(h1), Option::Some(h2)) => {
            if h2.t < h1.t || (h2.t == h1.t && h2.shape < h1.shape) {
                Option::Some(h2)
            } else {
                Option::Some(h1)
            }
        },
    }
}

/// Either ray-intersection acceleration structure, behind one interface.
pub enum Accelerator {
    Linear(linear::ShapeVec),
    Kd(kd::KdTree),
}

impl Accelerator {
    pub open spec fn wf(&self) -> bool {
        match self {
            Accelerator::Linear(a) => true,
            Accelerator::Kd(a) => a.wf(),
        }
    }

    pub open spec fn spec_shapes(&self) -> Seq<Shape> {
        match self {
            Accelerator::Linear(a) => a.shapes@,
            Accelerator::Kd(a) => a.shapes@,
        }
    }

    /// The nearest hit over all shapes the accelerator was built from,
    /// whichever variant answers.
    pub fn trace(&self, ray: &Ray) -> (r: Option<Hit>)
        requires
            self.wf(),
        ensures
            is_best(self.spec_shapes(), idx_upto(self.spec_shapes().len() as int), *ray, r),
    {
        match self {
            Accelerator::Linear(a) => a.trace(ray),
            Accelerator::Kd(a) => a.trace(ray),
        }
    }
}

} // verus!
