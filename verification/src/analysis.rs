//! The analysis kernel: a running intensity integral of the pressure field.
//!
//! For each air cell the accumulator gains the square of the cell's
//! pressure sample once per step, taken after the pressure update and
//! before source injection; solid cells stay untouched. The accumulator is
//! twice as wide as the samples, and the pass reports exactly when even
//! that range is left. The engine never reads the field back; it is purely
//! observable.

use vstd::prelude::*;

use crate::grid::Grid3;
use crate::grid::is_air;
use crate::grid::lemma_idx_bounds;
use crate::grid::lemma_idx_injective;
use crate::stencil::in_i128;
use crate::stencil::lemma_mul_bounds;

verus! {

/// The analysis accumulator at one cell after one step: grown by the
/// square of the pressure sample for an air cell, unchanged for a solid
/// one.
pub open spec fn analysis_value(geo: Grid3<i8>, a: Grid3<i128>, p: Grid3<i64>, x: int, y: int, z: int) -> int {
    if is_air(geo.cell(x, y, z)) {
        a.cell(x, y, z) + p.cell(x, y, z) * p.cell(x, y, z)
    } else {
        a.cell(x, y, z) as int
    }
}

/// One step of the analysis accumulator over the whole grid, or `None`
/// exactly when some cell's exact value leaves the accumulator range.
#[verifier::loop_isolation(false)]
#[verifier::rlimit(60)]
pub fn analysis_pass(geo: &Grid3<i8>, a: &Grid3<i128>, p: &Grid3<i64>) -> (r: Option<Grid3<i128>>)
    requires
        geo.wf(),
        a.wf(),
        p.wf(),
        a.same_shape(*geo),
        p.same_shape(*geo),
    ensures
        r is Some ==> {
            let g = r->Some_0;
            &&& g.wf()
            &&& g.same_shape(*geo)
            &&& forall|x: int, y: int, z: int|
                geo.in_bounds(x, y, z) ==> {
                    &&& in_i128(analysis_value(*geo, *a, *p, x, y, z))
                    &&& g.cell(x, y, z) == analysis_value(*geo, *a, *p, x, y, z)
                }
        },
        r is None ==> exists|x: int, y: int, z: int|
            geo.in_bounds(x, y, z) && !in_i128(analysis_value(*geo, *a, *p, x, y, z)),
{
    let mut cells: Vec<i128> = Vec::new();
    let mut wi: usize = 0;
    proof {
        assert(0int * (geo.h as int) * (geo.d as int) == 0int) by (nonlinear_arith);
    }
    while wi < geo.w
        invariant
            wi <= geo.w,
            cells@.len() == wi * geo.h * geo.d,
            forall|x: int, y: int, z: int|
                geo.in_bounds(x, y, z) && geo.idx(x, y, z) < cells@.len() ==> {
                    &&& in_i128(analysis_value(*geo, *a, *p, x, y, z))
                    &&& cells@[geo.idx(x, y, z)] == analysis_value(*geo, *a, *p, x, y, z)
                },
        decreases geo.w - wi,
    {
        let mut hi: usize = 0;
        proof {
            assert(wi * geo.h * geo.d == (wi * geo.h + 0) * geo.d) by (nonlinear_arith);
        }
        while hi < geo.h
            invariant
                hi <= geo.h,
                cells@.len() == (wi * geo.h + hi) * geo.d,
                forall|x: int, y: int, z: int|
                    geo.in_bounds(x, y, z) && geo.idx(x, y, z) < cells@.len() ==> {
                        &&& in_i128(analysis_value(*geo, *a, *p, x, y, z))
                        &&& cells@[geo.idx(x, y, z)] == analysis_value(*geo, *a, *p, x, y, z)
                    },
            decreases geo.h - hi,
        {
            let mut di: usize = 0;
            while di < geo.d
                invariant
                    di <= geo.d,
                    cells@.len() == (wi * geo.h + hi) * geo.d + di,
                    forall|x: int, y: int, z: int|
                        geo.in_bounds(x, y, z) && geo.idx(x, y, z) < cells@.len() ==> {
                            &&& in_i128(analysis_value(*geo, *a, *p, x, y, z))
                            &&& cells@[geo.idx(x, y, z)] == analysis_value(*geo, *a, *p, x, y, z)
                        },
                decreases geo.d - di,
            {
                let acc: i128 = a.get(wi, hi, di);
                let mut value: i128 = acc;
                if geo.get(wi, hi, di) == 0 {
                    let sample: i64 = p.get(wi, hi, di);
                    proof {
                        lemma_mul_bounds(sample as int, sample as int, i64::MAX as int + 1, i64::MAX as int + 1);
                        assert((sample as int) * (sample as int) >= 0) by (nonlinear_arith);
                    }
                    let sq: i128 = (sample as i128) * (sample as i128);
                    if acc > i128::MAX - sq {
                        proof {
                            assert(geo.in_bounds(wi as int, hi as int, di as int)
                                && !in_i128(analysis_value(*geo, *a, *p, wi as int, hi as int, di as int)));
                        }
                        return None;
                    }
                    value = acc + sq;
                }
                cells.push(value);
                proof {
                    assert forall|x: int, y: int, z: int|
                        geo.in_bounds(x, y, z) && geo.idx(x, y, z) < cells@.len() implies {
                            &&& in_i128(analysis_value(*geo, *a, *p, x, y, z))
                            &&& cells@[geo.idx(x, y, z)] == analysis_value(*geo, *a, *p, x, y, z)
                        } by {
                        lemma_idx_bounds(geo.w as int, geo.h as int, geo.d as int, x, y, z);
                        if geo.idx(x, y, z) == cells@.len() - 1 {
                            lemma_idx_injective(
                                geo.w as int, geo.h as int, geo.d as int,
                                x, y, z,
                                wi as int, hi as int, di as int,
                            );
                        }
                    }
                }
                di = di + 1;
            }
            proof {
                assert((wi * geo.h + hi) * geo.d + geo.d == (wi * geo.h + (hi + 1)) * geo.d) by (nonlinear_arith);
            }
            hi = hi + 1;
        }
        proof {
            assert((wi * geo.h + geo.h) * geo.d == (wi + 1) * geo.h * geo.d) by (nonlinear_arith);
        }
        wi = wi + 1;
    }
    let g = Grid3 { w: geo.w, h: geo.h, d: geo.d, cells };
    proof {
        assert forall|x: int, y: int, z: int|
            geo.in_bounds(x, y, z) implies {
                &&& in_i128(analysis_value(*geo, *a, *p, x, y, z))
                &&& g.cell(x, y, z) == analysis_value(*geo, *a, *p, x, y, z)
            } by {
            lemma_idx_bounds(geo.w as int, geo.h as int, geo.d as int, x, y, z);
        }
    }
    Some(g)
}

} // verus!
