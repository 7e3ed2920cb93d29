use vstd::prelude::*;
use crate::accelerator::{beaten, idx_upto, is_best};
use crate::scene::Scene;
use crate::shape::{Hit, Shape};
use crate::vector::Ray;

verus! {

/// The baseline accelerator: a flat copy of the scene's shapes, scanned in
/// order on every query.
pub struct ShapeVec {
    pub shapes: Vec<Shape>,
}

impl ShapeVec {
    pub fn new(scene: &Scene) -> (r: ShapeVec)
        ensures
            r.shapes@ == scene.shapes@,
    {
        let mut shapes: Vec<Shape> = Vec::new();
        let n = scene.shapes.len();
        let mut i: usize = 0;
        while i < n
            invariant
                i <= n,
                n == scene.shapes@.len(),
                shapes@ == scene.shapes@.subrange(0, i as int),
            decreases n - i,
        {
            shapes.push(scene.shapes[i]);
            proof {
                assert(shapes@ =~= scene.shapes@.subrange(0, i + 1));
            }
            i = i + 1;
        }
        proof {
            assert(shapes@ =~= scene.shapes@);
        }
        ShapeVec { shapes }
    }

    /// Scans every shape once; a later shape replaces the best hit only when
    /// it is struck strictly nearer, so ties keep the earliest shape.
    pub fn trace(&self, ray: &Ray) -> (r: Option<Hit>)
        ensures
            is_best(self.shapes@, idx_upto(self.shapes@.len() as int), *ray, r),
    {
        let n = self.shapes.len();
        let mut best: Option<Hit> = Option::None;
        let mut i: usize = 0;
        while i < n
            invariant
                i <= n,
                n == self.shapes@.len(),
                is_best(self.shapes@, idx_upto(i as int), *ray, best),
            decreases n - i,
        {
            let h = self.shapes[i].hit(ray);
            let next: Option<Hit> = match (h, &best) {
                (Option::Some(t), Option::None) => Option::Some(Hit { shape: i, t }),
                (Option::Some(t), Option::Some(b)) => {
                    if t < b.t {
                        Option::Some(Hit { shape: i, t })
                    } else {
                        best
                    }
                },
                (Option::None, _) => best,
            };
            proof {
                let idxs = idx_upto(i + 1);
                assert forall|k: int| 0 <= k < idxs.len() implies #[trigger] idxs[k] == k by {}
                if next is Some {
                    let hb = next->Some_0;
                    assert(idxs[hb.shape as int] == hb.shape as int);
                    assert(idxs.contains(hb.shape as int));
                    assert forall|k: int| 0 <= k < idxs.len() implies beaten(
                        self.shapes@,
                        #[trigger] idxs[k],
                        *ray,
                        hb,
                    ) by {
                        if k < i as int {
                            assert(idx_upto(i as int)[k] == k);
                            assert(beaten(self.shapes@, k, *ray, if best is Some {
                                best->Some_0
                            } else {
                                hb
                            }));
                        }
                    }
                } else {
                    assert forall|k: int| 0 <= k < idxs.len() implies self.shapes@[#[trigger] idxs[k]].spec_hit(
                        *ray,
                    ) is None by {
                        if k < i as int {
                            assert(idx_upto(i as int)[k] == k);
                            assert(self.shapes@[k].spec_hit(*ray) is None);
                        }
                    }
                }
            }
            best = next;
            i = i + 1;
        }
        best
    }
}

} // verus!
