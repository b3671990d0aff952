//! Precomputation of per-cell open-neighbour counts from the obstacle mask.
//!
//! For an air cell the count is the number of its six face-adjacent cells
//! that are in bounds and air; for a solid cell it is zero. The stencil
//! kernels use the counts to pick boundary treatment, and visualizers use
//! them to tell interior, boundary and solid cells apart.

use vstd::prelude::*;

use crate::grid::Grid3;
use crate::grid::is_air;
use crate::grid::lemma_idx_bounds;
use crate::grid::lemma_idx_injective;

verus! {

/// 1 when (x, y, z) names an in-bounds air cell of `g`, else 0.
pub open spec fn air_at(g: Grid3<i8>, x: int, y: int, z: int) -> int {
    if g.in_bounds(x, y, z) && is_air(g.cell(x, y, z)) {
        1
    } else {
        0
    }
}

/// The number of face-adjacent in-bounds air cells around (x, y, z).
pub open spec fn open_neighbour_count(g: Grid3<i8>, x: int, y: int, z: int) -> int {
    air_at(g, x - 1, y, z) + air_at(g, x + 1, y, z)
        + air_at(g, x, y - 1, z) + air_at(g, x, y + 1, z)
        + air_at(g, x, y, z - 1) + air_at(g, x, y, z + 1)
}

/// The value the neighbours field must hold at (x, y, z): the open-neighbour
/// count for air cells, zero for solid ones.
pub open spec fn neighbours_value(g: Grid3<i8>, x: int, y: int, z: int) -> int {
    if is_air(g.cell(x, y, z)) {
        open_neighbour_count(g, x, y, z)
    } else {
        0
    }
}

/// `nb` is exactly the neighbours field that the mask `geo` calls for.
pub open spec fn neighbours_valid(geo: Grid3<i8>, nb: Grid3<i8>) -> bool {
    &&& nb.wf()
    &&& nb.same_shape(geo)
    &&& forall|x: int, y: int, z: int|
        geo.in_bounds(x, y, z) ==> nb.cell(x, y, z) == neighbours_value(geo, x, y, z)
}

/// Compute the neighbours field of the obstacle mask `g`.
#[verifier::loop_isolation(false)]
pub fn neighbours_of(g: &Grid3<i8>) -> (r: Grid3<i8>)
    requires
        g.wf(),
    ensures
        neighbours_valid(*g, r),
{
    let mut cells: Vec<i8> = Vec::new();
    let mut wi: usize = 0;
    while wi < g.w
        invariant
            wi <= g.w,
            cells@.len() == wi * g.h * g.d,
            forall|x: int, y: int, z: int|
                g.in_bounds(x, y, z) && g.idx(x, y, z) < cells@.len()
                    ==> cells@[g.idx(x, y, z)] == neighbours_value(*g, x, y, z),
        decreases g.w - wi,
    {
        let mut hi: usize = 0;
        proof {
            assert(wi * g.h * g.d == (wi * g.h + 0) * g.d) by (nonlinear_arith);
        }
        while hi < g.h
            invariant
                hi <= g.h,
                cells@.len() == (wi * g.h + hi) * g.d,
                forall|x: int, y: int, z: int|
                    g.in_bounds(x, y, z) && g.idx(x, y, z) < cells@.len()
                        ==> cells@[g.idx(x, y, z)] == neighbours_value(*g, x, y, z),
            decreases g.h - hi,
        {
            let mut di: usize = 0;
            while di < g.d
                invariant
                    di <= g.d,
                    cells@.len() == (wi * g.h + hi) * g.d + di,
                    forall|x: int, y: int, z: int|
                        g.in_bounds(x, y, z) && g.idx(x, y, z) < cells@.len()
                            ==> cells@[g.idx(x, y, z)] == neighbours_value(*g, x, y, z),
                decreases g.d - di,
            {
                let mut count: i8 = 0;
                if g.get(wi, hi, di) == 0 {
                    if wi > 0 && g.get(wi - 1, hi, di) == 0 {
                        count = count + 1;
                    }
                    if wi + 1 < g.w && g.get(wi + 1, hi, di) == 0 {
                        count = count + 1;
                    }
                    if hi > 0 && g.get(wi, hi - 1, di) == 0 {
                        count = count + 1;
                    }
                    if hi + 1 < g.h && g.get(wi, hi + 1, di) == 0 {
                        count = count + 1;
                    }
                    if di > 0 && g.get(wi, hi, di - 1) == 0 {
                        count = count + 1;
                    }
                    if di + 1 < g.d && g.get(wi, hi, di + 1) == 0 {
                        count = count + 1;
                    }
                }
                proof {
                    assert(count == neighbours_value(*g, wi as int, hi as int, di as int));
                }
                cells.push(count);
                proof {
                    assert forall|x: int, y: int, z: int|
                        g.in_bounds(x, y, z) && g.idx(x, y, z) < cells@.len()
                            implies cells@[g.idx(x, y, z)] == neighbours_value(*g, x, y, z) by {
                        lemma_idx_bounds(g.w as int, g.h as int, g.d as int, x, y, z);
                        if g.idx(x, y, z) == cells@.len() - 1 {
                            lemma_idx_injective(
                                g.w as int, g.h as int, g.d as int,
                                x, y, z,
                                wi as int, hi as int, di as int,
                            );
                        }
                    }
                }
                di = di + 1;
            }
            proof {
                assert((wi * g.h + hi) * g.d + g.d == (wi * g.h + (hi + 1)) * g.d) by (nonlinear_arith);
            }
            hi = hi + 1;
        }
        proof {
            assert((wi * g.h + g.h) * g.d == (wi + 1) * g.h * g.d) by (nonlinear_arith);
        }
        wi = wi + 1;
    }
    let r = Grid3 { w: g.w, h: g.h, d: g.d, cells };
    proof {
        assert forall|x: int, y: int, z: int|
            g.in_bounds(x, y, z)
                implies r.cell(x, y, z) == neighbours_value(*g, x, y, z) by {
            lemma_idx_bounds(g.w as int, g.h as int, g.d as int, x, y, z);
        }
    }
    r
}

/// Recomputing neighbours is deterministic: two masks that agree cell for
/// cell give neighbour fields that agree cell for cell, however many other
/// masks were painted and recomputed in between.
pub proof fn lemma_neighbours_deterministic(
    geo1: Grid3<i8>,
    geo2: Grid3<i8>,
    n1: Grid3<i8>,
    n2: Grid3<i8>,
)
    requires
        geo1.wf(),
        geo2.wf(),
        geo1.same_shape(geo2),
        geo1.cells@ == geo2.cells@,
        neighbours_valid(geo1, n1),
        neighbours_valid(geo2, n2),
    ensures
        n1.same_shape(n2),
        forall|x: int, y: int, z: int|
            geo1.in_bounds(x, y, z) ==> n1.cell(x, y, z) == n2.cell(x, y, z),
{
    assert forall|x: int, y: int, z: int|
        geo1.in_bounds(x, y, z) implies n1.cell(x, y, z) == n2.cell(x, y, z) by {
        assert(neighbours_value(geo1, x, y, z) == neighbours_value(geo2, x, y, z));
    }
}

} // verus!
