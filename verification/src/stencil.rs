//! The per-cell stencil update rules of the two kernel families, as exact
//! integer arithmetic on sample grids.
//!
//! Both families read the present fields and the obstacle mask, compute the
//! next time slice, leave solid cells at zero, and treat out-of-bounds
//! cells as zero-pressure contributors (rigid wall). The update rules here
//! fix the data flow, the masking and the boundary handling of the kernels
//! exactly; the device path runs the same stencils on real-valued samples
//! with the scheme's derived coefficients. This module holds the compact
//! family and what both families share, including the exact rational loss
//! factor and its rounding rule.
//!
//! A pass either returns the full next slice or reports that some cell's
//! exact value left the 64-bit sample range; its contract says which, cell
//! by cell.

use vstd::prelude::*;

use crate::grid::Grid3;
use crate::grid::is_air;
use crate::grid::lemma_idx_bounds;
use crate::grid::lemma_idx_injective;

verus! {

/// Largest magnitude a stencil coefficient may have; keeps every product a
/// pass forms well inside the 128-bit accumulator.
pub const COEF_LIMIT: i64 = 0x4000_0000;

/// A value that fits the 64-bit sample range.
pub open spec fn in_i64(v: int) -> bool {
    i64::MIN <= v <= i64::MAX
}

/// A value that fits the 128-bit accumulator range.
pub open spec fn in_i128(v: int) -> bool {
    i128::MIN <= v <= i128::MAX
}

/// A coefficient within the magnitude bound of the passes.
pub open spec fn coef_ok(c: i64) -> bool {
    -COEF_LIMIT <= c <= COEF_LIMIT
}

/// An exact per-step loss factor in (0, 1]: the positive rational
/// `num / den` with `num <= den`, within the coefficient bound.
pub open spec fn loss_ok(num: i64, den: i64) -> bool {
    1 <= num <= den <= COEF_LIMIT
}

/// Quotient of `v` by the positive divisor `d`, rounded toward zero: the
/// rounding rule the loss factor is applied with.
pub open spec fn div_trunc(v: int, d: int) -> int {
    if v >= 0 {
        v / d
    } else {
        -((-v) / d)
    }
}

/// Zero divided by a positive divisor is zero, under rounding toward zero.
pub proof fn lemma_div_trunc_zero(d: int)
    requires
        d >= 1,
    ensures
        div_trunc(0, d) == 0,
{
    vstd::arithmetic::div_mod::lemma_fundamental_div_mod_converse(0, d, 0, 0);
}

/// A product of the divisor divides exactly: `(d·e) / d` rounded toward
/// zero is `e`.
pub proof fn lemma_div_trunc_exact(e: int, d: int)
    requires
        d >= 1,
    ensures
        div_trunc(d * e, d) == e,
{
    if e >= 0 {
        assert(d * e >= 0 && d * e == e * d) by (nonlinear_arith)
            requires
                d >= 1,
                e >= 0,
        ;
        vstd::arithmetic::div_mod::lemma_fundamental_div_mod_converse(d * e, d, e, 0);
    } else {
        assert(-(d * e) == d * (-e) && d * (-e) >= 0 && d * (-e) == (-e) * d) by (nonlinear_arith)
            requires
                d >= 1,
                e < 0,
        ;
        vstd::arithmetic::div_mod::lemma_fundamental_div_mod_converse(d * (-e), d, -e, 0);
    }
}

/// Read of field `f` at (x, y, z) as the stencils see a neighbour: zero
/// when out of bounds or solid, the stored sample otherwise.
pub open spec fn masked_at(geo: Grid3<i8>, f: Grid3<i64>, x: int, y: int, z: int) -> int {
    if geo.in_bounds(x, y, z) && is_air(geo.cell(x, y, z)) {
        f.cell(x, y, z) as int
    } else {
        0
    }
}

/// Read of field `f` at (x, y, z) with only the domain edge masked: zero
/// out of bounds, the stored sample otherwise.
pub open spec fn raw_at(geo: Grid3<i8>, f: Grid3<i64>, x: int, y: int, z: int) -> int {
    if geo.in_bounds(x, y, z) {
        f.cell(x, y, z) as int
    } else {
        0
    }
}

/// Sum of the six face-adjacent neighbours of (x, y, z).
pub open spec fn face_sum(geo: Grid3<i8>, p: Grid3<i64>, x: int, y: int, z: int) -> int {
    masked_at(geo, p, x - 1, y, z) + masked_at(geo, p, x + 1, y, z)
        + masked_at(geo, p, x, y - 1, z) + masked_at(geo, p, x, y + 1, z)
        + masked_at(geo, p, x, y, z - 1) + masked_at(geo, p, x, y, z + 1)
}

/// Sum of the twelve edge-adjacent neighbours of (x, y, z).
pub open spec fn edge_sum(geo: Grid3<i8>, p: Grid3<i64>, x: int, y: int, z: int) -> int {
    masked_at(geo, p, x - 1, y - 1, z) + masked_at(geo, p, x - 1, y + 1, z)
        + masked_at(geo, p, x + 1, y - 1, z) + masked_at(geo, p, x + 1, y + 1, z)
        + masked_at(geo, p, x - 1, y, z - 1) + masked_at(geo, p, x - 1, y, z + 1)
        + masked_at(geo, p, x + 1, y, z - 1) + masked_at(geo, p, x + 1, y, z + 1)
        + masked_at(geo, p, x, y - 1, z - 1) + masked_at(geo, p, x, y - 1, z + 1)
        + masked_at(geo, p, x, y + 1, z - 1) + masked_at(geo, p, x, y + 1, z + 1)
}

/// Sum of the eight corner-adjacent neighbours of (x, y, z).
pub open spec fn corner_sum(geo: Grid3<i8>, p: Grid3<i64>, x: int, y: int, z: int) -> int {
    masked_at(geo, p, x - 1, y - 1, z - 1) + masked_at(geo, p, x - 1, y - 1, z + 1)
        + masked_at(geo, p, x - 1, y + 1, z - 1) + masked_at(geo, p, x - 1, y + 1, z + 1)
        + masked_at(geo, p, x + 1, y - 1, z - 1) + masked_at(geo, p, x + 1, y - 1, z + 1)
        + masked_at(geo, p, x + 1, y + 1, z - 1) + masked_at(geo, p, x + 1, y + 1, z + 1)
}

/// The compact single-field update at one cell: for an air cell,
/// `d4·P − P_prev + d1·Σ6 + d2·Σ12 + d3·Σ8` over the face, edge and corner
/// neighbourhoods; zero for a solid cell.
pub open spec fn compact_value(
    geo: Grid3<i8>,
    p: Grid3<i64>,
    pp: Grid3<i64>,
    d1: int,
    d2: int,
    d3: int,
    d4: int,
    x: int,
    y: int,
    z: int,
) -> int {
    if is_air(geo.cell(x, y, z)) {
        d4 * p.cell(x, y, z) - pp.cell(x, y, z)
            + d1 * face_sum(geo, p, x, y, z)
            + d2 * edge_sum(geo, p, x, y, z)
            + d3 * corner_sum(geo, p, x, y, z)
    } else {
        0
    }
}

/// A product of values within the given magnitudes stays within the
/// product of the magnitudes.
pub proof fn lemma_mul_bounds(a: int, b: int, ab: int, bb: int)
    by (nonlinear_arith)
    requires
        -ab <= a <= ab,
        -bb <= b <= bb,
        0 <= ab,
        0 <= bb,
    ensures
        -(ab * bb) <= a * b <= ab * bb,
{
}

/// Read a neighbour sample the way the compact stencil does: zero for a
/// solid cell, the stored value otherwise. Bounds are the caller's business.
fn masked_read(geo: &Grid3<i8>, f: &Grid3<i64>, x: usize, y: usize, z: usize) -> (v: i64)
    requires
        geo.wf(),
        f.wf(),
        f.same_shape(*geo),
        geo.in_bounds(x as int, y as int, z as int),
    ensures
        v as int == masked_at(*geo, *f, x as int, y as int, z as int),
{
    if geo.get(x, y, z) == 0 {
        f.get(x, y, z)
    } else {
        0
    }
}

/// One step of the compact scheme over the whole grid: the next pressure
/// slice, or `None` exactly when some cell's exact value leaves the sample
/// range.
#[verifier::loop_isolation(false)]
#[verifier::rlimit(60)]
pub fn compact_pass(
    geo: &Grid3<i8>,
    p: &Grid3<i64>,
    pp: &Grid3<i64>,
    d1: i64,
    d2: i64,
    d3: i64,
    d4: i64,
) -> (r: Option<Grid3<i64>>)
    requires
        geo.wf(),
        p.wf(),
        pp.wf(),
        p.same_shape(*geo),
        pp.same_shape(*geo),
        coef_ok(d1),
        coef_ok(d2),
        coef_ok(d3),
        coef_ok(d4),
    ensures
        r is Some ==> {
            let g = r->Some_0;
            &&& g.wf()
            &&& g.same_shape(*geo)
            &&& forall|x: int, y: int, z: int|
                geo.in_bounds(x, y, z) ==> {
                    &&& in_i64(compact_value(*geo, *p, *pp, d1 as int, d2 as int, d3 as int, d4 as int, x, y, z))
                    &&& g.cell(x, y, z) == compact_value(*geo, *p, *pp, d1 as int, d2 as int, d3 as int, d4 as int, x, y, z)
                }
        },
        r is None ==> exists|x: int, y: int, z: int|
            geo.in_bounds(x, y, z)
                && !in_i64(compact_value(*geo, *p, *pp, d1 as int, d2 as int, d3 as int, d4 as int, x, y, z)),
{
    let mut cells: Vec<i64> = Vec::new();
    let mut wi: usize = 0;
    proof {
        assert(0int * (geo.h as int) * (geo.d as int) == 0int) by (nonlinear_arith);
    }
    while wi < geo.w
        invariant
            wi <= geo.w,
            cells@.len() == wi * geo.h * geo.d,
            forall|x: int, y: int, z: int|
                geo.in_bounds(x, y, z) && geo.idx(x, y, z) < cells@.len() ==> {
                    &&& in_i64(compact_value(*geo, *p, *pp, d1 as int, d2 as int, d3 as int, d4 as int, x, y, z))
                    &&& cells@[geo.idx(x, y, z)] == compact_value(*geo, *p, *pp, d1 as int, d2 as int, d3 as int, d4 as int, x, y, z)
                },
        decreases geo.w - wi,
    {
        let mut hi: usize = 0;
        proof {
            assert(wi * geo.h * geo.d == (wi * geo.h + 0) * geo.d) by (nonlinear_arith);
        }
        while hi < geo.h
            invariant
                hi <= geo.h,
                cells@.len() == (wi * geo.h + hi) * geo.d,
                forall|x: int, y: int, z: int|
                    geo.in_bounds(x, y, z) && geo.idx(x, y, z) < cells@.len() ==> {
                        &&& in_i64(compact_value(*geo, *p, *pp, d1 as int, d2 as int, d3 as int, d4 as int, x, y, z))
                        &&& cells@[geo.idx(x, y, z)] == compact_value(*geo, *p, *pp, d1 as int, d2 as int, d3 as int, d4 as int, x, y, z)
                    },
            decreases geo.h - hi,
        {
            let mut di: usize = 0;
            while di < geo.d
                invariant
                    di <= geo.d,
                    cells@.len() == (wi * geo.h + hi) * geo.d + di,
                    forall|x: int, y: int, z: int|
                        geo.in_bounds(x, y, z) && geo.idx(x, y, z) < cells@.len() ==> {
                            &&& in_i64(compact_value(*geo, *p, *pp, d1 as int, d2 as int, d3 as int, d4 as int, x, y, z))
                            &&& cells@[geo.idx(x, y, z)] == compact_value(*geo, *p, *pp, d1 as int, d2 as int, d3 as int, d4 as int, x, y, z)
                        },
                decreases geo.d - di,
            {
                let value: i128 = compact_cell_value(geo, p, pp, d1, d2, d3, d4, wi, hi, di);
                if value < i64::MIN as i128 || value > i64::MAX as i128 {
                    proof {
                        assert(geo.in_bounds(wi as int, hi as int, di as int)
                            && !in_i64(compact_value(*geo, *p, *pp, d1 as int, d2 as int, d3 as int, d4 as int, wi as int, hi as int, di as int)));
                    }
                    return None;
                }
                cells.push(value as i64);
                proof {
                    assert forall|x: int, y: int, z: int|
                        geo.in_bounds(x, y, z) && geo.idx(x, y, z) < cells@.len() implies {
                            &&& in_i64(compact_value(*geo, *p, *pp, d1 as int, d2 as int, d3 as int, d4 as int, x, y, z))
                            &&& cells@[geo.idx(x, y, z)] == compact_value(*geo, *p, *pp, d1 as int, d2 as int, d3 as int, d4 as int, x, y, z)
                        } by {
                        lemma_idx_bounds(geo.w as int, geo.h as int, geo.d as int, x, y, z);
                        if geo.idx(x, y, z) == cells@.len() - 1 {
                            lemma_idx_injective(
                                geo.w as int, geo.h as int, geo.d as int,
                                x, y, z,
                                wi as int, hi as int, di as int,
                            );
                        }
                    }
                }
                di = di + 1;
            }
            proof {
                assert((wi * geo.h + hi) * geo.d + geo.d == (wi * geo.h + (hi + 1)) * geo.d) by (nonlinear_arith);
            }
            hi = hi + 1;
        }
        proof {
            assert((wi * geo.h + geo.h) * geo.d == (wi + 1) * geo.h * geo.d) by (nonlinear_arith);
        }
        wi = wi + 1;
    }
    let g = Grid3 { w: geo.w, h: geo.h, d: geo.d, cells };
    proof {
        assert forall|x: int, y: int, z: int|
            geo.in_bounds(x, y, z) implies {
                &&& in_i64(compact_value(*geo, *p, *pp, d1 as int, d2 as int, d3 as int, d4 as int, x, y, z))
                &&& g.cell(x, y, z) == compact_value(*geo, *p, *pp, d1 as int, d2 as int, d3 as int, d4 as int, x, y, z)
            } by {
            lemma_idx_bounds(geo.w as int, geo.h as int, geo.d as int, x, y, z);
        }
    }
    Some(g)
}

/// Sum of the six face-adjacent neighbour samples, gathered with the
/// rigid-wall masking of the compact stencil.
#[verifier::rlimit(100)]
fn gather_face(geo: &Grid3<i8>, p: &Grid3<i64>, wi: usize, hi: usize, di: usize) -> (s: i128)
    requires
        geo.wf(),
        p.wf(),
        p.same_shape(*geo),
        geo.in_bounds(wi as int, hi as int, di as int),
    ensures
        s == face_sum(*geo, *p, wi as int, hi as int, di as int),
        -6 * (i64::MAX as int + 1) <= s <= 6 * (i64::MAX as int + 1),
{
    let mut s: i128 = 0;
    if wi > 0 {
        s = s + masked_read(geo, p, wi - 1, hi, di) as i128;
    }
    if wi + 1 < geo.w {
        s = s + masked_read(geo, p, wi + 1, hi, di) as i128;
    }
    if hi > 0 {
        s = s + masked_read(geo, p, wi, hi - 1, di) as i128;
    }
    if hi + 1 < geo.h {
        s = s + masked_read(geo, p, wi, hi + 1, di) as i128;
    }
    if di > 0 {
        s = s + masked_read(geo, p, wi, hi, di - 1) as i128;
    }
    if di + 1 < geo.d {
        s = s + masked_read(geo, p, wi, hi, di + 1) as i128;
    }
    s
}

/// First half of the edge-adjacent neighbourhood: the six edge neighbours
/// that offset the w axis, masked the same way.
#[verifier::rlimit(30)]
fn gather_edge_w(geo: &Grid3<i8>, p: &Grid3<i64>, wi: usize, hi: usize, di: usize) -> (s: i128)
    requires
        geo.wf(),
        p.wf(),
        p.same_shape(*geo),
        geo.in_bounds(wi as int, hi as int, di as int),
    ensures
        s == masked_at(*geo, *p, wi - 1, hi - 1, di as int)
            + masked_at(*geo, *p, wi - 1, hi + 1, di as int)
            + masked_at(*geo, *p, wi + 1, hi - 1, di as int)
            + masked_at(*geo, *p, wi + 1, hi + 1, di as int)
            + masked_at(*geo, *p, wi - 1, hi as int, di - 1)
            + masked_at(*geo, *p, wi - 1, hi as int, di + 1),
        -6 * (i64::MAX as int + 1) <= s <= 6 * (i64::MAX as int + 1),
{
    let up_w: bool = wi + 1 < geo.w;
    let up_h: bool = hi + 1 < geo.h;
    let up_d: bool = di + 1 < geo.d;
    let mut s: i128 = 0;
    if wi > 0 && hi > 0 {
        s = s + masked_read(geo, p, wi - 1, hi - 1, di) as i128;
    }
    if wi > 0 && up_h {
        s = s + masked_read(geo, p, wi - 1, hi + 1, di) as i128;
    }
    if up_w && hi > 0 {
        s = s + masked_read(geo, p, wi + 1, hi - 1, di) as i128;
    }
    if up_w && up_h {
        s = s + masked_read(geo, p, wi + 1, hi + 1, di) as i128;
    }
    if wi > 0 && di > 0 {
        s = s + masked_read(geo, p, wi - 1, hi, di - 1) as i128;
    }
    if wi > 0 && up_d {
        s = s + masked_read(geo, p, wi - 1, hi, di + 1) as i128;
    }
    s
}

/// Second half of the edge-adjacent neighbourhood, masked the same way.
#[verifier::rlimit(30)]
fn gather_edge_hd(geo: &Grid3<i8>, p: &Grid3<i64>, wi: usize, hi: usize, di: usize) -> (s: i128)
    requires
        geo.wf(),
        p.wf(),
        p.same_shape(*geo),
        geo.in_bounds(wi as int, hi as int, di as int),
    ensures
        s == masked_at(*geo, *p, wi + 1, hi as int, di - 1)
            + masked_at(*geo, *p, wi + 1, hi as int, di + 1)
            + masked_at(*geo, *p, wi as int, hi - 1, di - 1)
            + masked_at(*geo, *p, wi as int, hi - 1, di + 1)
            + masked_at(*geo, *p, wi as int, hi + 1, di - 1)
            + masked_at(*geo, *p, wi as int, hi + 1, di + 1),
        -6 * (i64::MAX as int + 1) <= s <= 6 * (i64::MAX as int + 1),
{
    let up_w: bool = wi + 1 < geo.w;
    let up_h: bool = hi + 1 < geo.h;
    let up_d: bool = di + 1 < geo.d;
    let mut s: i128 = 0;
    if up_w && di > 0 {
        s = s + masked_read(geo, p, wi + 1, hi, di - 1) as i128;
    }
    if up_w && up_d {
        s = s + masked_read(geo, p, wi + 1, hi, di + 1) as i128;
    }
    if hi > 0 && di > 0 {
        s = s + masked_read(geo, p, wi, hi - 1, di - 1) as i128;
    }
    if hi > 0 && up_d {
        s = s + masked_read(geo, p, wi, hi - 1, di + 1) as i128;
    }
    if up_h && di > 0 {
        s = s + masked_read(geo, p, wi, hi + 1, di - 1) as i128;
    }
    if up_h && up_d {
        s = s + masked_read(geo, p, wi, hi + 1, di + 1) as i128;
    }
    s
}

/// Sum of the twelve edge-adjacent neighbour samples, masked the same way.
fn gather_edge(geo: &Grid3<i8>, p: &Grid3<i64>, wi: usize, hi: usize, di: usize) -> (s: i128)
    requires
        geo.wf(),
        p.wf(),
        p.same_shape(*geo),
        geo.in_bounds(wi as int, hi as int, di as int),
    ensures
        s == edge_sum(*geo, *p, wi as int, hi as int, di as int),
        -12 * (i64::MAX as int + 1) <= s <= 12 * (i64::MAX as int + 1),
{
    let a: i128 = gather_edge_w(geo, p, wi, hi, di);
    let b: i128 = gather_edge_hd(geo, p, wi, hi, di);
    a + b
}

/// Sum of the eight corner-adjacent neighbour samples, masked the same way.
#[verifier::rlimit(60)]
fn gather_corner(geo: &Grid3<i8>, p: &Grid3<i64>, wi: usize, hi: usize, di: usize) -> (s: i128)
    requires
        geo.wf(),
        p.wf(),
        p.same_shape(*geo),
        geo.in_bounds(wi as int, hi as int, di as int),
    ensures
        s == corner_sum(*geo, *p, wi as int, hi as int, di as int),
        -8 * (i64::MAX as int + 1) <= s <= 8 * (i64::MAX as int + 1),
{
    let up_w: bool = wi + 1 < geo.w;
    let up_h: bool = hi + 1 < geo.h;
    let up_d: bool = di + 1 < geo.d;
    let mut s: i128 = 0;
    if wi > 0 && hi > 0 && di > 0 {
        s = s + masked_read(geo, p, wi - 1, hi - 1, di - 1) as i128;
    }
    if wi > 0 && hi > 0 && up_d {
        s = s + masked_read(geo, p, wi - 1, hi - 1, di + 1) as i128;
    }
    if wi > 0 && up_h && di > 0 {
        s = s + masked_read(geo, p, wi - 1, hi + 1, di - 1) as i128;
    }
    if wi > 0 && up_h && up_d {
        s = s + masked_read(geo, p, wi - 1, hi + 1, di + 1) as i128;
    }
    if up_w && hi > 0 && di > 0 {
        s = s + masked_read(geo, p, wi + 1, hi - 1, di - 1) as i128;
    }
    if up_w && hi > 0 && up_d {
        s = s + masked_read(geo, p, wi + 1, hi - 1, di + 1) as i128;
    }
    if up_w && up_h && di > 0 {
        s = s + masked_read(geo, p, wi + 1, hi + 1, di - 1) as i128;
    }
    if up_w && up_h && up_d {
        s = s + masked_read(geo, p, wi + 1, hi + 1, di + 1) as i128;
    }
    s
}

/// The exact compact-stencil value at one cell, in the wide accumulator.
#[verifier::rlimit(60)]
fn compact_cell_value(
    geo: &Grid3<i8>,
    p: &Grid3<i64>,
    pp: &Grid3<i64>,
    d1: i64,
    d2: i64,
    d3: i64,
    d4: i64,
    wi: usize,
    hi: usize,
    di: usize,
) -> (value: i128)
    requires
        geo.wf(),
        p.wf(),
        pp.wf(),
        p.same_shape(*geo),
        pp.same_shape(*geo),
        coef_ok(d1),
        coef_ok(d2),
        coef_ok(d3),
        coef_ok(d4),
        geo.in_bounds(wi as int, hi as int, di as int),
    ensures
        value as int == compact_value(*geo, *p, *pp, d1 as int, d2 as int, d3 as int, d4 as int, wi as int, hi as int, di as int),
{
    if geo.get(wi, hi, di) != 0 {
        return 0;
    }
    let c: i64 = p.get(wi, hi, di);
    let cp: i64 = pp.get(wi, hi, di);
    let s6: i128 = gather_face(geo, p, wi, hi, di);
    let s12: i128 = gather_edge(geo, p, wi, hi, di);
    let s8: i128 = gather_corner(geo, p, wi, hi, di);
    proof {
        lemma_mul_bounds(d4 as int, c as int, COEF_LIMIT as int, i64::MAX as int + 1);
        lemma_mul_bounds(d1 as int, s6 as int, COEF_LIMIT as int, 6 * (i64::MAX as int + 1));
        lemma_mul_bounds(d2 as int, s12 as int, COEF_LIMIT as int, 12 * (i64::MAX as int + 1));
        lemma_mul_bounds(d3 as int, s8 as int, COEF_LIMIT as int, 8 * (i64::MAX as int + 1));
    }
    let t_center: i128 = (d4 as i128) * (c as i128);
    let t_face: i128 = (d1 as i128) * s6;
    let t_edge: i128 = (d2 as i128) * s12;
    let t_corner: i128 = (d3 as i128) * s8;
    t_center - (cp as i128) + t_face + t_edge + t_corner
}

} // verus!
